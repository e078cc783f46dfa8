//! Newsletter publishing core: an idempotent publish protocol and a
//! persistent delivery queue drained by background workers.
pub mod confirmation;
pub mod errors;
pub mod http;
pub mod idempotency;
pub mod laws;
pub mod model;
pub mod pages;
pub mod password;
pub mod publish;
pub mod routes;
pub mod store;
pub mod subscriber_email;
pub mod subscription_token;
pub mod text;
pub mod worker;

pub use errors::{ConfirmError, SubscribeError};
pub use http::{Header, HttpResponse};
pub use idempotency::IdempotencyKey;
pub use pages::{BodyData, Content, Parameters, QueryParams};
pub use password::{Password, PasswordError};
pub use publish::{FormData, PublishError};
pub use store::{Claim, DeliveryTask, NewsletterIssue, NextAction, Scope, Store, StoreError};
pub use subscriber_email::SubscriberEmail;
pub use subscription_token::SubscriptionToken;
pub use worker::{ExecutionOutcome, PendingDelivery, TaskStep};
