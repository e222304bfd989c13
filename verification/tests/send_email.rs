use scheduler::tasks::send_email::{Delivery, EmailEnv, EmailPlan, EmailRequest, SendEmailTask};

fn env(api_key: Option<&str>, recipient: Option<&str>) -> EmailEnv {
    EmailEnv {
        api_key: api_key.map(String::from),
        from: None,
        recipient: recipient.map(String::from),
        subject: None,
        body: None,
    }
}

#[test]
fn the_task_announces_itself() {
    assert_eq!(SendEmailTask::announcement(), "📧 [Task] Sending email...");
}

#[test]
fn without_an_api_key_nothing_is_sent() {
    let line = "❌ [Task] Error: RESEND_API_KEY missing in .env!".to_string();
    assert_eq!(SendEmailTask::plan(&env(None, None), "t"), EmailPlan::Refuse(line.clone()));
    assert_eq!(SendEmailTask::plan(&env(Some(""), Some("a@b.c")), "t"), EmailPlan::Refuse(line.clone()));
    assert_eq!(SendEmailTask::plan(&env(None, Some("a@b.c")), "t"), EmailPlan::Refuse(line));
}

#[test]
fn without_a_recipient_nothing_is_sent() {
    let line = "❌ [Task] Error: SMTP_RECIPIENT missing in .env!".to_string();
    assert_eq!(SendEmailTask::plan(&env(Some("key"), None), "t"), EmailPlan::Refuse(line.clone()));
    assert_eq!(SendEmailTask::plan(&env(Some("key"), Some("")), "t"), EmailPlan::Refuse(line));
}

#[test]
fn what_is_not_set_has_a_default() {
    let plan = SendEmailTask::plan(&env(Some("re_123"), Some("someone@example.com")), "2024-01-01T00:00:00+00:00");
    assert_eq!(
        plan,
        EmailPlan::Send(EmailRequest {
            url: "https://api.resend.com/emails".to_string(),
            authorization: "Bearer re_123".to_string(),
            from: "onboarding@resend.dev".to_string(),
            to: "someone@example.com".to_string(),
            subject: "Termi-Schedule: Job Executed ✅".to_string(),
            text: "Hello!\n\nThe automated email task has been successfully processed by your Termi-Schedule worker thread.\n\nTimestamp: 2024-01-01T00:00:00+00:00".to_string(),
        })
    );
}

#[test]
fn what_is_set_is_used() {
    let settings = EmailEnv {
        api_key: Some("k".to_string()),
        from: Some("me@example.com".to_string()),
        recipient: Some("you@example.com".to_string()),
        subject: Some("Hi".to_string()),
        body: Some("".to_string()),
    };
    assert_eq!(
        SendEmailTask::plan(&settings, "now"),
        EmailPlan::Send(EmailRequest {
            url: "https://api.resend.com/emails".to_string(),
            authorization: "Bearer k".to_string(),
            from: "me@example.com".to_string(),
            to: "you@example.com".to_string(),
            subject: "Hi".to_string(),
            text: "".to_string(),
        })
    );
}

#[test]
fn the_report_says_how_the_request_ended() {
    assert_eq!(SendEmailTask::report(&Delivery::Accepted), "✅ [Task] Email sent successfully!");
    assert_eq!(
        SendEmailTask::report(&Delivery::Rejected {
            status: "401 Unauthorized".to_string(),
            body: "{\"message\":\"bad key\"}".to_string(),
        }),
        "❌ [Task] Resend API error (401 Unauthorized): {\"message\":\"bad key\"}"
    );
    assert_eq!(
        SendEmailTask::report(&Delivery::Failed { error: "connection refused".to_string() }),
        "❌ [Task] HTTP request failed: connection refused"
    );
}
