//! Request parameters of the admin pages, and the HTML fragments that show
//! messages on them.
use vstd::prelude::*;
use vstd::string::StringExecFns;

verus! {

/// The query string of the login page.
pub struct QueryParams {
    pub error: Option<String>,
}

/// The query string of a confirmation link.
pub struct Parameters {
    pub subscription_token: String,
}

/// The JSON body of a newsletter issue.
pub struct BodyData {
    pub title: String,
    pub content: Content,
}

/// The two bodies of a newsletter issue.
pub struct Content {
    pub html: String,
    pub text: String,
}

/// One message as a paragraph in italics.
pub open spec fn message_html(m: Seq<char>) -> Seq<char> {
    "<p><i>"@ + m + "</i></p>"@
}

/// The login page's error paragraph, empty when there is no error.
pub fn login_error_html(query: &QueryParams) -> (r: String)
    ensures
        r@ == match query.error {
            Some(m) => message_html(m@),
            None => seq![],
        },
{
    match &query.error {
        Some(error_message) => {
            let html = String::from_str("<p><i>");
            let html = html.concat(error_message.as_str());
            html.concat("</i></p>")
        },
        None => String::new(),
    }
}

/// One line for each message, in order.
pub open spec fn messages_html(messages: Seq<Seq<char>>) -> Seq<char>
    decreases messages.len(),
{
    if messages.len() == 0 {
        seq![]
    } else {
        messages_html(messages.drop_last()) + "<p><i>"@ + messages.last() + "</i></p>\n"@
    }
}

/// The flash messages of a page, one paragraph per line.
pub fn flash_messages_html(messages: &Vec<String>) -> (r: String)
    ensures
        r@ == messages_html(messages@.map_values(|m: String| m@)),
{
    let ghost ms = messages@.map_values(|m: String| m@);
    let mut msg_html = String::new();
    let mut i: usize = 0;
    while i < messages.len()
        invariant
            i <= messages.len(),
            ms == messages@.map_values(|m: String| m@),
            msg_html@ == messages_html(ms.subrange(0, i as int)),
        decreases messages.len() - i,
    {
        proof {
            assert(ms.subrange(0, i + 1).drop_last() =~= ms.subrange(0, i as int));
        }
        msg_html.append("<p><i>");
        msg_html.append(messages[i].as_str());
        msg_html.append("</i></p>\n");
        i = i + 1;
        proof {
            assert(msg_html@ =~= messages_html(ms.subrange(0, i as int)));
        }
    }
    proof {
        assert(ms.subrange(0, i as int) =~= ms);
    }
    msg_html
}

} // verus!
