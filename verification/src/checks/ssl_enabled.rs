//! The `ssl-enabled` check.
use vstd::prelude::*;
use crate::output::{plain_result, CheckResult, CheckResultView, Severity};
use crate::text::{chars_eq_str, chars_of};

verus! {

/// Check that SSL is enabled
pub struct SslEnabledCheck;

/// The result for the server's `ssl` setting.
pub open spec fn ssl_enabled_result(ssl: Seq<char>) -> CheckResultView {
    if ssl == "on"@ {
        plain_result("ssl-enabled"@, "SSL Enabled"@, Severity::Critical, true, "SSL is enabled"@)
    } else {
        CheckResultView {
            remediation: Some(
                "Set ssl = on in postgresql.conf and configure SSL certificates"@,
            ),
            ..plain_result(
                "ssl-enabled"@,
                "SSL Enabled"@,
                Severity::Critical,
                false,
                "SSL is disabled"@,
            )
        }
    }
}

impl SslEnabledCheck {
    pub fn id(&self) -> (s: &'static str)
        ensures
            s@ == "ssl-enabled"@,
    {
        "ssl-enabled"
    }

    pub fn name(&self) -> (s: &'static str)
        ensures
            s@ == "SSL Enabled"@,
    {
        "SSL Enabled"
    }

    pub fn severity(&self) -> (s: Severity)
        ensures
            s == Severity::Critical,
    {
        Severity::Critical
    }

    pub fn description(&self) -> (s: &'static str)
        ensures
            s@ == "Verify SSL is enabled for encrypted connections"@,
    {
        "Verify SSL is enabled for encrypted connections"
    }

    /// The server setting that the check judges.
    pub fn setting(&self) -> (s: &'static str)
        ensures
            s@ == "ssl"@,
    {
        "ssl"
    }

    pub fn requires_connection(&self) -> (b: bool)
        ensures
            b,
    {
        true
    }

    /// The verdict on the server's `ssl` setting.
    pub fn evaluate(&self, ssl: &str) -> (r: CheckResult)
        ensures
            r@ == ssl_enabled_result(ssl@),
    {
        if chars_eq_str(&chars_of(ssl), "on") {
            CheckResult::pass(
                self.id(),
                self.name(),
                self.severity(),
                String::from_str("SSL is enabled"),
            )
        } else {
            CheckResult::fail(
                self.id(),
                self.name(),
                self.severity(),
                String::from_str("SSL is disabled"),
            ).with_remediation(
                String::from_str("Set ssl = on in postgresql.conf and configure SSL certificates"),
            )
        }
    }
}

} // verus!
