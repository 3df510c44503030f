//! Waiting until an omp process answers requests.
use crate::text;
use crate::text::{decimal_text, with_suffix};
use vstd::prelude::*;

verus! {

/// How long to pause between two requests, in milliseconds.
pub const PAUSE_MS: u64 = 300;

/// A wait for an endpoint of an omp process to answer.
pub struct EndpointWait {
    /// The port that the process listens on.
    pub port: u16,
    /// The path of the endpoint.
    pub path: String,
    /// How long to wait, in seconds.
    pub timeout_secs: u64,
}

/// What to do after a request.
pub enum AfterRequest {
    /// The endpoint answers: the wait is over.
    Ready,
    /// Pause for so many milliseconds, and look at the time again.
    Pause(u64),
}

/// The address of an endpoint.
pub open spec fn endpoint_url(port: u16, path: Seq<char>) -> Seq<char> {
    "http://localhost:"@ + text::decimal(port as nat) + path
}

/// What is said where the time is over.
pub open spec fn timed_out(port: u16, path: Seq<char>) -> Seq<char> {
    "Timed out waiting for "@ + path + " on port "@ + text::decimal(port as nat)
}

/// Whether a status code is one of those for an error of the server.
pub open spec fn server_error(status: u16) -> bool {
    500 <= status <= 599
}

impl EndpointWait {
    /// Whether the wait has lasted longer than it may, after so many nanoseconds.
    pub open spec fn over(self, elapsed_nanos: u128) -> bool {
        elapsed_nanos > self.timeout_secs * 1_000_000_000
    }

    /// The address to request, so many nanoseconds after the wait began; the message that the
    /// time is over, if it is.
    pub fn poll(&self, elapsed_nanos: u128) -> (url: Result<String, String>)
        ensures
            match url {
                Ok(address) => !self.over(elapsed_nanos) && address@ == endpoint_url(
                    self.port,
                    self.path@,
                ),
                Err(message) => self.over(elapsed_nanos) && message@ == timed_out(
                    self.port,
                    self.path@,
                ),
            },
    {
        if elapsed_nanos > self.timeout_secs as u128 * 1_000_000_000u128 {
            let mut message = with_suffix("Timed out waiting for ", self.path.as_str());
            message.append(" on port ");
            message.append(decimal_text(self.port).as_str());
            Err(message)
        } else {
            let mut url = with_suffix("http://localhost:", decimal_text(self.port).as_str());
            url.append(self.path.as_str());
            Ok(url)
        }
    }

    /// What to do after a request, given the status code of the response if there was one: the
    /// endpoint answers once there is a response other than an error of the server.
    pub fn answered(&self, status: Option<u16>) -> (next: AfterRequest)
        ensures
            next == (match status {
                Some(code) if !server_error(code) => AfterRequest::Ready,
                _ => AfterRequest::Pause(PAUSE_MS),
            }),
    {
        match status {
            Some(code) => {
                if code < 500 || code > 599 {
                    AfterRequest::Ready
                } else {
                    AfterRequest::Pause(PAUSE_MS)
                }
            },
            None => AfterRequest::Pause(PAUSE_MS),
        }
    }
}

/// A wait for an endpoint of the omp process on a port, so many seconds at the longest.
pub fn wait_for_endpoint(port: u16, path: &str, timeout_secs: u64) -> (wait: EndpointWait)
    ensures
        wait.port == port,
        wait.path@ == path@,
        wait.timeout_secs == timeout_secs,
{
    EndpointWait { port, path: path.to_owned(), timeout_secs }
}

/// A wait for the omp process on a port to report that it is healthy.
pub fn wait_for_health(port: u16, timeout_secs: u64) -> (wait: EndpointWait)
    ensures
        wait.port == port,
        wait.path@ == "/api/health"@,
        wait.timeout_secs == timeout_secs,
{
    wait_for_endpoint(port, "/api/health", timeout_secs)
}

/// A wait makes a first request however short it may be, and once its time is over it stays
/// over.
pub proof fn law_wait_ends(wait: EndpointWait, earlier: u128, later: u128)
    requires
        earlier <= later,
    ensures
        !wait.over(0),
        wait.over(earlier) ==> wait.over(later),
{
}

/// The address of an endpoint is made of the port and the whole path behind it, and so is what
/// is said where the time is over.
pub proof fn law_endpoint_is_named_by_port_and_path(port: u16, path: Seq<char>)
    ensures
        endpoint_url(port, path) == "http://localhost:"@ + text::decimal(port as nat) + path,
        timed_out(port, path) == "Timed out waiting for "@ + path + " on port "@ + text::decimal(
            port as nat,
        ),
{
}

/// The errors of the server are the statuses with five hundreds, and a wait is over exactly
/// after its seconds.
pub proof fn law_wait_is_bounded_by_its_seconds(
    wait: EndpointWait,
    status: u16,
    seconds: nat,
    nanos: u128,
)
    requires
        nanos < 1_000_000_000,
        seconds * 1_000_000_000 + nanos <= u128::MAX,
    ensures
        server_error(status) <==> status / 100 == 5,
        wait.over((seconds * 1_000_000_000 + nanos) as u128) <==> seconds > wait.timeout_secs || (
        seconds == wait.timeout_secs && nanos > 0),
{
}

} // verus!
