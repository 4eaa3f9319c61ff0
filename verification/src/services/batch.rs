//! Results of running one command on many hosts.
use vstd::prelude::*;

use crate::models::host::Host;
use crate::services::ssh_client::SshResult;

verus! {

#[derive(Clone, Debug)]
pub struct BatchResult {
    pub host_id: String,
    pub host_name: String,
    pub stdout: String,
    pub stderr: String,
    pub exit_code: Option<u32>,
    pub success: bool,
    pub elapsed_ms: u64,
    pub error: Option<String>,
}

/// The result for a host: what the command printed and how it exited, a
/// success exactly when it exited with 0; or, when it could not be run, the
/// error and nothing printed.
pub fn batch_result(host: &Host, outcome: Result<SshResult, String>, elapsed_ms: u64) -> (r:
    BatchResult)
    ensures
        r.host_id@ == host.id@,
        r.host_name@ == host.name@,
        r.elapsed_ms == elapsed_ms,
        match outcome {
            Ok(res) => {
                &&& r.stdout == res.stdout
                &&& r.stderr == res.stderr
                &&& r.exit_code == res.exit_code
                &&& r.success == (res.exit_code == Some(0u32))
                &&& r.error is None
            },
            Err(e) => {
                &&& r.stdout@.len() == 0
                &&& r.stderr@.len() == 0
                &&& r.exit_code is None
                &&& !r.success
                &&& r.error == Some(e)
            },
        },
{
    match outcome {
        Ok(result) => {
            let success = match result.exit_code {
                Some(code) => code == 0,
                None => false,
            };
            BatchResult {
                host_id: host.id.clone(),
                host_name: host.name.clone(),
                stdout: result.stdout,
                stderr: result.stderr,
                exit_code: result.exit_code,
                success,
                elapsed_ms,
                error: None,
            }
        },
        Err(e) => BatchResult {
            host_id: host.id.clone(),
            host_name: host.name.clone(),
            stdout: String::new(),
            stderr: String::new(),
            exit_code: None,
            success: false,
            elapsed_ms,
            error: Some(e),
        },
    }
}

/// The name under which a task that died before reporting is listed.
pub open spec fn crashed_name() -> Seq<char> {
    "\u{4efb}\u{52a1}\u{5d29}\u{6e83}"@
}

/// The result listed for a task that died before reporting: no host, the
/// error, not a success.
pub fn crashed_result(error: String) -> (r: BatchResult)
    ensures
        r.host_id@.len() == 0,
        r.host_name@ == crashed_name(),
        r.stdout@.len() == 0,
        r.stderr@.len() == 0,
        r.exit_code is None,
        !r.success,
        r.elapsed_ms == 0,
        r.error == Some(error),
{
    BatchResult {
        host_id: String::new(),
        host_name: String::from_str("\u{4efb}\u{52a1}\u{5d29}\u{6e83}"),
        stdout: String::new(),
        stderr: String::new(),
        exit_code: None,
        success: false,
        elapsed_ms: 0,
        error: Some(error),
    }
}

/// Number of successes among the results.
pub open spec fn successes(rs: Seq<BatchResult>) -> nat
    decreases rs.len(),
{
    if rs.len() == 0 {
        0
    } else {
        successes(rs.drop_last()) + if rs.last().success {
            1nat
        } else {
            0nat
        }
    }
}

/// `(succeeded, failed)` counts of a batch run, as its history records them.
pub fn count_outcomes(results: &Vec<BatchResult>) -> (r: (usize, usize))
    ensures
        r.0 == successes(results@),
        r.0 + r.1 == results.len(),
{
    let mut n: usize = 0;
    let mut i: usize = 0;
    while i < results.len()
        invariant
            i <= results.len(),
            n == successes(results@.take(i as int)),
            n <= i,
        decreases results.len() - i,
    {
        assert(results@.take(i + 1).drop_last() =~= results@.take(i as int));
        if results[i].success {
            n += 1;
        }
        i += 1;
    }
    assert(results@.take(i as int) =~= results@);
    (n, results.len() - n)
}

} // verus!
