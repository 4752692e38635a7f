use xdcc_fetch::classify::DccScan;
use xdcc_fetch::session::{
    build_join_line, build_nick_line, build_quit_line, build_user_line, build_xdcc_line,
    split_packages, Action, Request, Session, TransferLedger,
};

fn request() -> Request {
    Request {
        server: b"irc.example.net:6667".to_vec(),
        channel: b"chan".to_vec(),
        nickname: b"nick".to_vec(),
        bot: b"bot".to_vec(),
        packages: vec![b"1".to_vec(), b"2".to_vec()],
    }
}

fn sent_lines(acts: &[Action]) -> Vec<Vec<u8>> {
    acts.iter()
        .filter_map(|a| match a {
            Action::SendLine(v) => Some(v.clone()),
            Action::Spawn(_) => None,
        })
        .collect()
}

#[test]
fn login_lines_are_exact() {
    assert_eq!(build_nick_line(b"nick"), b"NICK nick\r\n".to_vec());
    assert_eq!(build_user_line(b"nick"), b"USER nick 0 * nick\r\n".to_vec());
    assert_eq!(build_join_line(b"chan"), b"JOIN #chan\r\n".to_vec());
    assert_eq!(build_xdcc_line(b"bot", b"7"), b"PRIVMSG bot :xdcc send #7\r\n".to_vec());
    assert_eq!(build_quit_line(), b"QUIT :my job is done here!\r\n".to_vec());
}

#[test]
fn ping_gets_reply_and_first_ping_triggers_join() {
    let req = request();
    let mut s = Session::new();
    let acts = s.handle_line(&req, b"PING :42\r\n");
    assert_eq!(
        sent_lines(&acts),
        vec![b"PONG :42\r\n".to_vec(), b"JOIN #chan\r\n".to_vec()]
    );
    let acts = s.handle_line(&req, b"PING :43\r\n");
    assert_eq!(sent_lines(&acts), vec![b"PONG :43\r\n".to_vec()]);
}

#[test]
fn join_reaction_fires_exactly_once() {
    let req = request();
    let mut s = Session::new();
    let join_echo = b":nick!u@h JOIN :#chan\r\n";
    let acts = s.handle_line(&req, join_echo);
    assert_eq!(
        sent_lines(&acts),
        vec![
            b"PRIVMSG bot :xdcc send #1\r\n".to_vec(),
            b"PRIVMSG bot :xdcc send #2\r\n".to_vec(),
        ]
    );
    let acts = s.handle_line(&req, join_echo);
    assert!(acts.is_empty());
    let acts = s.handle_line(&req, join_echo);
    assert!(acts.is_empty());
}

#[test]
fn offer_line_dispatches_a_transfer() {
    let req = request();
    let mut s = Session::new();
    let acts = s.handle_line(&req, b"DCC SEND \"a b\" 2130706433 5000 10\r\n");
    assert_eq!(acts.len(), 1);
    match &acts[0] {
        Action::Spawn(o) => {
            assert_eq!(o.filename, b"a b".to_vec());
            assert_eq!(o.port, 5000);
            assert_eq!(o.size, 10);
        }
        _ => panic!("expected a dispatched transfer"),
    }
    assert!(!s.all_dispatched(&req));
    let acts = s.handle_line(&req, b"DCC SEND c 16909060 5001 20\r\n");
    assert_eq!(acts.len(), 1);
    assert!(s.all_dispatched(&req));
}

#[test]
fn malformed_offer_is_ignored_and_session_continues() {
    let req = request();
    let mut s = Session::new();
    let acts = s.handle_line(&req, b"DCC SEND f 99999999999 5000 10\r\n");
    assert!(acts.is_empty());
    assert!(!s.all_dispatched(&req));
    let acts = s.handle_line(&req, b"DCC SEND f 2130706433 5000 10\r\n");
    assert_eq!(acts.len(), 1);
}

#[test]
fn split_packages_on_commas() {
    let split = |s: &[u8]| -> Vec<Vec<u8>> { split_packages(s) };
    assert_eq!(split(b"1,2,3"), vec![b"1".to_vec(), b"2".to_vec(), b"3".to_vec()]);
    assert_eq!(split(b"solo"), vec![b"solo".to_vec()]);
    assert_eq!(split(b"a,,b"), vec![b"a".to_vec(), b"".to_vec(), b"b".to_vec()]);
    assert_eq!(split(b""), vec![b"".to_vec()]);
}

fn run_ledger(expected: usize, failures: usize) -> TransferLedger {
    let mut ledger = TransferLedger::new(expected);
    let mut signalled: usize = 0;
    while !ledger.is_complete() {
        ledger.record(signalled >= failures);
        signalled += 1;
    }
    assert_eq!(signalled, expected);
    ledger
}

#[test]
fn completion_waits_for_every_signal() {
    for expected in [1usize, 2, 5] {
        let ledger = run_ledger(expected, 0);
        assert!(ledger.is_complete());
        assert!(ledger.all_succeeded());
    }
}

#[test]
fn failed_transfer_still_counts_toward_completion() {
    let ledger = run_ledger(2, 1);
    assert!(ledger.is_complete());
    assert!(!ledger.all_succeeded());
    assert_eq!(ledger.failed, 1);
    assert_eq!(ledger.succeeded, 1);

    let ledger = run_ledger(5, 2);
    assert!(ledger.is_complete());
    assert_eq!(ledger.failed, 2);
    assert_eq!(ledger.succeeded, 3);
}

#[test]
fn incomplete_ledger_is_not_complete() {
    let mut ledger = TransferLedger::new(3);
    ledger.record(true);
    ledger.record(false);
    assert!(!ledger.is_complete());
    ledger.record(true);
    assert!(ledger.is_complete());
}
