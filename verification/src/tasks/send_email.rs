//! The email task: what it decides between reading its settings, making the
//! request and reporting on it. Reading the settings, telling the time and
//! making the request are the caller's part.

use vstd::prelude::*;
use vstd::string::StringExecFns;

verus! {

pub struct SendEmailTask;

/// The settings of the task as they were found; `None` for one that is not set.
pub struct EmailEnv {
    /// `RESEND_API_KEY`
    pub api_key: Option<String>,
    /// `SMTP_FROM`
    pub from: Option<String>,
    /// `SMTP_RECIPIENT`
    pub recipient: Option<String>,
    /// `EMAIL_SUBJECT`
    pub subject: Option<String>,
    /// `EMAIL_BODY`
    pub body: Option<String>,
}

/// A request to the email service.
#[derive(Debug, PartialEq, Eq)]
pub struct EmailRequest {
    pub url: String,
    /// The value of the `Authorization` header.
    pub authorization: String,
    pub from: String,
    pub to: String,
    pub subject: String,
    pub text: String,
}

/// What the task does once it has its settings.
#[derive(Debug, PartialEq, Eq)]
pub enum EmailPlan {
    /// Send nothing, and report this line.
    Refuse(String),
    /// Make this request.
    Send(EmailRequest),
}

/// How a request ended.
#[derive(Debug, PartialEq, Eq)]
pub enum Delivery {
    /// The service answered with a success status.
    Accepted,
    /// The service answered with another status.
    Rejected { status: String, body: String },
    /// No answer was had.
    Failed { error: String },
}

/// The mathematical value of an [`EmailRequest`].
pub ghost struct EmailRequestView {
    pub url: Seq<char>,
    pub authorization: Seq<char>,
    pub from: Seq<char>,
    pub to: Seq<char>,
    pub subject: Seq<char>,
    pub text: Seq<char>,
}

/// The mathematical value of an [`EmailPlan`].
pub ghost enum EmailPlanView {
    Refuse(Seq<char>),
    Send(EmailRequestView),
}

impl View for EmailRequest {
    type V = EmailRequestView;

    open spec fn view(&self) -> EmailRequestView {
        EmailRequestView {
            url: self.url@,
            authorization: self.authorization@,
            from: self.from@,
            to: self.to@,
            subject: self.subject@,
            text: self.text@,
        }
    }
}

impl View for EmailPlan {
    type V = EmailPlanView;

    open spec fn view(&self) -> EmailPlanView {
        match self {
            EmailPlan::Refuse(line) => EmailPlanView::Refuse(line@),
            EmailPlan::Send(request) => EmailPlanView::Send(request@),
        }
    }
}

/// The setting's text, or `fallback` where it is not set.
pub open spec fn text_or(setting: Option<String>, fallback: Seq<char>) -> Seq<char> {
    match setting {
        Some(text) => text@,
        None => fallback,
    }
}

/// The text of the email where none is set.
pub open spec fn default_body(timestamp: Seq<char>) -> Seq<char> {
    "Hello!\n\nThe automated email task has been successfully processed by your Termi-Schedule worker thread.\n\nTimestamp: "@
        + timestamp
}

/// The plan for the settings: without an API key, or else without a
/// recipient, nothing is sent; otherwise the request carries the settings,
/// with the service's test sender, a fixed subject and [`default_body`] in
/// place of what is not set.
pub open spec fn planned(env: EmailEnv, timestamp: Seq<char>) -> EmailPlanView {
    if text_or(env.api_key, Seq::empty()).len() == 0 {
        EmailPlanView::Refuse("❌ [Task] Error: RESEND_API_KEY missing in .env!"@)
    } else if text_or(env.recipient, Seq::empty()).len() == 0 {
        EmailPlanView::Refuse("❌ [Task] Error: SMTP_RECIPIENT missing in .env!"@)
    } else {
        EmailPlanView::Send(
            EmailRequestView {
                url: "https://api.resend.com/emails"@,
                authorization: "Bearer "@ + text_or(env.api_key, Seq::empty()),
                from: text_or(env.from, "onboarding@resend.dev"@),
                to: text_or(env.recipient, Seq::empty()),
                subject: text_or(env.subject, "Termi-Schedule: Job Executed ✅"@),
                text: text_or(env.body, default_body(timestamp)),
            },
        )
    }
}

/// The line that reports how a request ended.
pub open spec fn report_of(delivery: Delivery) -> Seq<char> {
    match delivery {
        Delivery::Accepted => "✅ [Task] Email sent successfully!"@,
        Delivery::Rejected { status, body } => "❌ [Task] Resend API error ("@ + status@ + "): "@
            + body@,
        Delivery::Failed { error } => "❌ [Task] HTTP request failed: "@ + error@,
    }
}

/// The setting's text, or `fallback` where it is not set.
fn owned_or(setting: &Option<String>, fallback: &str) -> (text: String)
    ensures
        text@ == text_or(*setting, fallback@),
{
    match setting {
        Some(text) => text.clone(),
        None => String::from_str(fallback),
    }
}

impl SendEmailTask {
    /// The line with which the task announces itself.
    pub fn announcement() -> (line: String)
        ensures
            line@ == "📧 [Task] Sending email..."@,
    {
        String::from_str("📧 [Task] Sending email...")
    }

    /// Decides what to do with the settings; `timestamp` is the time to be
    /// named in the default text.
    pub fn plan(env: &EmailEnv, timestamp: &str) -> (plan: EmailPlan)
        ensures
            plan@ == planned(*env, timestamp@),
    {
        proof {
            reveal_strlit("");
        }
        let api_key = owned_or(&env.api_key, "");
        let to = owned_or(&env.recipient, "");
        if api_key.as_str().is_empty() {
            return EmailPlan::Refuse(
                String::from_str("❌ [Task] Error: RESEND_API_KEY missing in .env!"),
            );
        }
        if to.as_str().is_empty() {
            return EmailPlan::Refuse(
                String::from_str("❌ [Task] Error: SMTP_RECIPIENT missing in .env!"),
            );
        }
        let fallback_text = String::from_str(
            "Hello!\n\nThe automated email task has been successfully processed by your Termi-Schedule worker thread.\n\nTimestamp: ",
        ).concat(timestamp);
        let request = EmailRequest {
            url: String::from_str("https://api.resend.com/emails"),
            authorization: String::from_str("Bearer ").concat(api_key.as_str()),
            from: owned_or(&env.from, "onboarding@resend.dev"),
            to,
            subject: owned_or(&env.subject, "Termi-Schedule: Job Executed ✅"),
            text: owned_or(&env.body, fallback_text.as_str()),
        };
        EmailPlan::Send(request)
    }

    /// The line that reports how the request ended.
    pub fn report(delivery: &Delivery) -> (line: String)
        ensures
            line@ == report_of(*delivery),
    {
        match delivery {
            Delivery::Accepted => String::from_str("✅ [Task] Email sent successfully!"),
            Delivery::Rejected { status, body } => String::from_str(
                "❌ [Task] Resend API error (",
            ).concat(status.as_str()).concat("): ").concat(body.as_str()),
            Delivery::Failed { error } => String::from_str("❌ [Task] HTTP request failed: ").concat(
                error.as_str(),
            ),
        }
    }
}

} // verus!
