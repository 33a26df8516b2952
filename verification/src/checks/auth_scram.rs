//! The `auth-scram` check: SCRAM-SHA-256 password encryption.
use vstd::prelude::*;
use crate::output::{plain_result, CheckResult, CheckResultView, Severity};
use crate::text::{chars_eq_str, chars_of, push_str, vec_to_string};

verus! {

/// Check that SCRAM-SHA-256 is enforced for password encryption
pub struct AuthScramCheck;

pub open spec fn auth_scram_remediation() -> Seq<char> {
    "Set password_encryption = 'scram-sha-256' in postgresql.conf"@
}

/// The result for the server's `password_encryption` setting.
pub open spec fn auth_scram_result(password_encryption: Seq<char>) -> CheckResultView {
    if password_encryption == "scram-sha-256"@ {
        plain_result(
            "auth-scram"@,
            "SCRAM-SHA-256 Authentication"@,
            Severity::Critical,
            true,
            "Password encryption uses SCRAM-SHA-256"@,
        )
    } else {
        CheckResultView {
            remediation: Some(auth_scram_remediation()),
            ..plain_result(
                "auth-scram"@,
                "SCRAM-SHA-256 Authentication"@,
                Severity::Critical,
                false,
                "Password encryption is '"@ + password_encryption + "', should be 'scram-sha-256'"@,
            )
        }
    }
}

impl AuthScramCheck {
    pub fn id(&self) -> (s: &'static str)
        ensures
            s@ == "auth-scram"@,
    {
        "auth-scram"
    }

    pub fn name(&self) -> (s: &'static str)
        ensures
            s@ == "SCRAM-SHA-256 Authentication"@,
    {
        "SCRAM-SHA-256 Authentication"
    }

    pub fn severity(&self) -> (s: Severity)
        ensures
            s == Severity::Critical,
    {
        Severity::Critical
    }

    pub fn description(&self) -> (s: &'static str)
        ensures
            s@ == "Verify SCRAM-SHA-256 is used for password encryption"@,
    {
        "Verify SCRAM-SHA-256 is used for password encryption"
    }

    /// The server setting that the check judges.
    pub fn setting(&self) -> (s: &'static str)
        ensures
            s@ == "password_encryption"@,
    {
        "password_encryption"
    }

    pub fn requires_connection(&self) -> (b: bool)
        ensures
            b,
    {
        true
    }

    /// The verdict on the server's `password_encryption` setting.
    pub fn evaluate(&self, password_encryption: &str) -> (r: CheckResult)
        ensures
            r@ == auth_scram_result(password_encryption@),
    {
        if chars_eq_str(&chars_of(password_encryption), "scram-sha-256") {
            CheckResult::pass(
                self.id(),
                self.name(),
                self.severity(),
                String::from_str("Password encryption uses SCRAM-SHA-256"),
            )
        } else {
            let mut m: Vec<char> = Vec::new();
            push_str(&mut m, "Password encryption is '");
            push_str(&mut m, password_encryption);
            push_str(&mut m, "', should be 'scram-sha-256'");
            CheckResult::fail(self.id(), self.name(), self.severity(), vec_to_string(&m))
                .with_remediation(
                String::from_str("Set password_encryption = 'scram-sha-256' in postgresql.conf"),
            )
        }
    }
}

} // verus!
