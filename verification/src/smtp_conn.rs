//! The decisions of SMTP validation: which kind of TLS a port gets, and what each outcome
//! of building and testing the transport is reported as.
use vstd::prelude::*;
use crate::imap_conn::{concat_str, ConnectionResult};

verus! {

/// How the SMTP connection is secured.
#[derive(Debug, Clone, Copy, PartialEq, Eq, Structural)]
pub enum SmtpSecurity {
    /// SMTPS: TLS from the first byte (port 465).
    ImplicitTls,
    /// STARTTLS upgrade of a plain connection (port 587 and any other).
    StartTls,
}

/// The security used on `port`: implicit TLS on 465, STARTTLS elsewhere.
pub open spec fn security_for(port: u16) -> SmtpSecurity {
    if port == 465 {
        SmtpSecurity::ImplicitTls
    } else {
        SmtpSecurity::StartTls
    }
}

/// The security used on `port`.
pub fn smtp_security(port: u16) -> (r: SmtpSecurity)
    ensures
        r == security_for(port),
{
    if port == 465 {
        SmtpSecurity::ImplicitTls
    } else {
        SmtpSecurity::StartTls
    }
}

/// The message of a failure to build the transport.
pub open spec fn build_failure_message(security: SmtpSecurity, error: Seq<char>) -> Seq<char> {
    match security {
        SmtpSecurity::ImplicitTls => "SMTP relay build failed: "@ + error,
        SmtpSecurity::StartTls => "SMTP STARTTLS build failed: "@ + error,
    }
}

/// The message of a failure to build the transport with `security`.
pub fn transport_build_error(security: SmtpSecurity, error: &str) -> (r: String)
    ensures
        r@ == build_failure_message(security, error@),
{
    match security {
        SmtpSecurity::ImplicitTls => concat_str("SMTP relay build failed: ", error),
        SmtpSecurity::StartTls => concat_str("SMTP STARTTLS build failed: ", error),
    }
}

/// What a validation reports when the transport could not be built: a TLS failure.
pub fn build_failure_outcome(security: SmtpSecurity, error: &str) -> (r: ConnectionResult)
    ensures
        r matches ConnectionResult::TlsFailed(m) && m@ == build_failure_message(security, error@),
{
    ConnectionResult::TlsFailed(transport_build_error(security, error))
}

/// What a validation reports from the transport's connection test: success when it
/// passed, a connection failure when it answered false or failed.
pub fn connection_test_outcome(tested: Result<bool, String>) -> (r: ConnectionResult)
    ensures
        match tested {
            Ok(true) => r is Success,
            Ok(false) => r matches ConnectionResult::ConnectionFailed(m) && m@
                == "SMTP test_connection returned false"@,
            Err(e) => r == ConnectionResult::ConnectionFailed(e),
        },
{
    match tested {
        Ok(true) => ConnectionResult::Success,
        Ok(false) => ConnectionResult::ConnectionFailed(
            "SMTP test_connection returned false".to_owned(),
        ),
        Err(e) => ConnectionResult::ConnectionFailed(e),
    }
}

} // verus!
