use aliyundrive_webdav::login::{login_outcome, LoginFailed, QrPoll};

#[test]
fn confirmation_on_last_poll_succeeds() {
    // polls 1 to 9 still unscanned, poll 10 confirmed: the token comes back
    let mut polls: Vec<QrPoll> = (0..9).map(|_| QrPoll::New).collect();
    polls.push(QrPoll::Confirmed("refresh-token-1".to_string()));
    assert_eq!(login_outcome(polls, 10), Ok("refresh-token-1".to_string()));
}

#[test]
fn never_confirmed_fails_after_the_bound() {
    let polls: Vec<QrPoll> = (0..10).map(|_| QrPoll::New).collect();
    assert_eq!(login_outcome(polls, 10), Err(LoginFailed::PollsExhausted));
}

#[test]
fn confirmation_after_the_bound_is_too_late() {
    let mut polls: Vec<QrPoll> = (0..10).map(|_| QrPoll::New).collect();
    polls.push(QrPoll::Confirmed("late".to_string()));
    assert_eq!(login_outcome(polls, 10), Err(LoginFailed::PollsExhausted));
}

#[test]
fn expiry_is_terminal() {
    let polls = vec![QrPoll::New, QrPoll::Scanned, QrPoll::Expired, QrPoll::New];
    assert_eq!(login_outcome(polls, 10), Err(LoginFailed::SessionExpired));
}

#[test]
fn transient_poll_errors_do_not_abort() {
    let polls = vec![
        QrPoll::PollFailed,
        QrPoll::New,
        QrPoll::PollFailed,
        QrPoll::Scanned,
        QrPoll::Confirmed("tok".to_string()),
    ];
    assert_eq!(login_outcome(polls, 10), Ok("tok".to_string()));
}

#[test]
fn running_out_of_responses_is_exhaustion() {
    let polls = vec![QrPoll::New, QrPoll::New];
    assert_eq!(login_outcome(polls, 10), Err(LoginFailed::PollsExhausted));
}

use aliyundrive_webdav::login::{LoginMachine, LoginStep};

#[test]
fn machine_polls_until_confirmed() {
    let mut m = LoginMachine::start(10);
    for _ in 0..9 {
        assert!(matches!(m.on_poll(QrPoll::New), LoginStep::Continue));
    }
    match m.on_poll(QrPoll::Confirmed("tok".to_string())) {
        LoginStep::Finished(Ok(t)) => assert_eq!(t, "tok"),
        _ => panic!("expected the token on the last poll"),
    }
}

#[test]
fn machine_exhausts_its_bound() {
    let mut m = LoginMachine::start(3);
    assert!(matches!(m.on_poll(QrPoll::New), LoginStep::Continue));
    assert!(matches!(m.on_poll(QrPoll::Scanned), LoginStep::Continue));
    assert!(matches!(
        m.on_poll(QrPoll::New),
        LoginStep::Finished(Err(LoginFailed::PollsExhausted))
    ));
}

#[test]
fn machine_treats_expiry_as_terminal() {
    let mut m = LoginMachine::start(10);
    assert!(matches!(
        m.on_poll(QrPoll::Expired),
        LoginStep::Finished(Err(LoginFailed::SessionExpired))
    ));
}
