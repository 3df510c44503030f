use omp_manager::endpoint::{wait_for_endpoint, wait_for_health, AfterRequest};

#[test]
fn endpoints_are_requested_until_the_time_is_over() {
    let wait = wait_for_endpoint(47821, "/api/sessions", 2);
    let url = Ok("http://localhost:47821/api/sessions".to_string());
    assert_eq!(wait.poll(0), url);
    assert_eq!(wait.poll(2_000_000_000), url);
    assert_eq!(
        wait.poll(2_000_000_001),
        Err("Timed out waiting for /api/sessions on port 47821".to_string())
    );
    let longest = wait_for_endpoint(1, "/", u64::MAX);
    assert!(longest.poll(u64::MAX as u128).is_ok());
    assert!(longest.poll(u128::MAX).is_err());
}

#[test]
fn any_answer_but_a_server_error_will_do() {
    let wait = wait_for_health(80, 1);
    for status in [100, 200, 302, 404, 499, 600, 999] {
        assert!(matches!(wait.answered(Some(status)), AfterRequest::Ready));
    }
    for status in [500, 503, 599] {
        assert!(matches!(wait.answered(Some(status)), AfterRequest::Pause(300)));
    }
    assert!(matches!(wait.answered(None), AfterRequest::Pause(300)));
}

#[test]
fn health_has_its_own_endpoint() {
    let wait = wait_for_health(47822, 30);
    assert_eq!(wait.poll(0), Ok("http://localhost:47822/api/health".to_string()));
    assert_eq!(wait.timeout_secs, 30);
}

#[test]
fn a_wait_without_time_makes_one_request() {
    let wait = wait_for_endpoint(1, "/", 0);
    assert!(wait.poll(0).is_ok());
    assert!(wait.poll(1).is_err());
    assert!(wait.poll(2).is_err());
}
