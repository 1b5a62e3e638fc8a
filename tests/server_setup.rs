use protohackers::acceptor::{accept_step, AcceptAction, AcceptEvent};
use protohackers::config::{
    concurrency, select_socket_type, select_tcp_problem, select_udp_problem, tcp_problem_named,
    without_underscores, ConcurrencyError, SocketType, TcpProblem, UdpProblem, TCP_PROBLEMS,
};
use protohackers::unusual_database_program::{UnusualDatabaseProgram, VERSION};

#[test]
fn selects_socket_type_in_any_case() {
    assert_eq!(select_socket_type("tcp"), SocketType::Tcp);
    assert_eq!(select_socket_type("UDP"), SocketType::Udp);
    assert_eq!(select_socket_type(""), SocketType::Unknown);
    assert_eq!(select_socket_type("tcpx"), SocketType::Unknown);
}

#[test]
fn selects_problems_by_name() {
    assert_eq!(select_tcp_problem("Budget_Chat"), TcpProblem::BudgetChat);
    assert_eq!(select_tcp_problem("smoke_test"), TcpProblem::SmokeTest);
    assert_eq!(select_tcp_problem("PRIMETIME"), TcpProblem::PrimeTime);
    assert_eq!(select_tcp_problem("means_to_an_end"), TcpProblem::MeansToAnEnd);
    assert_eq!(select_tcp_problem("chat"), TcpProblem::Unknown);
    assert_eq!(tcp_problem_named("Budgetchat"), TcpProblem::Unknown);
    for name in TCP_PROBLEMS {
        assert_ne!(tcp_problem_named(name), TcpProblem::Unknown);
    }
    assert_eq!(select_udp_problem("UnusualDatabaseProgram"), UdpProblem::UnusualDatabaseProgram);
    assert_eq!(select_udp_problem("unusual_database_program"), UdpProblem::Unknown);
    assert_eq!(without_underscores("_a__b_"), "ab");
}

#[test]
fn worker_count_setting() {
    assert_eq!(concurrency(None), Ok(10));
    assert_eq!(concurrency(Some("4")), Ok(4));
    assert_eq!(concurrency(Some("+2")), Ok(2));
    assert_eq!(concurrency(Some("0")), Err(ConcurrencyError));
    assert_eq!(concurrency(Some("-1")), Err(ConcurrencyError));
    assert_eq!(concurrency(Some("ten")), Err(ConcurrencyError));
    assert_eq!(concurrency(Some("99999999999999999999999")), Err(ConcurrencyError));
}

#[test]
fn key_value_store() {
    let mut store = UnusualDatabaseProgram::new();
    assert_eq!(store.handle(b"version").unwrap(), format!("version={VERSION}"));
    assert_eq!(store.handle(b"foo"), Some(String::from("foo=")));
    assert_eq!(store.handle(b"foo=bar"), None);
    assert_eq!(store.handle(b"foo"), Some(String::from("foo=bar")));
    assert_eq!(store.handle(b"foo=bar=baz"), None);
    assert_eq!(store.handle(b"foo"), Some(String::from("foo=bar=baz")));
    assert_eq!(store.handle(b"=empty key"), None);
    assert_eq!(store.handle(b""), Some(String::from("=empty key")));
    assert_eq!(store.handle(b"empty="), None);
    assert_eq!(store.handle(b"empty"), Some(String::from("empty=")));
    assert_eq!(store.handle(b"version=other"), None);
    assert_eq!(store.handle(b"version").unwrap(), "version=MM Key-Value Store: 1.0.0");
    assert_eq!(store.get(&String::from("version")), Some(String::from("other")));
    store.insert(String::from("k"), String::from("v"));
    assert_eq!(store.handle(&[b'k']), Some(String::from("k=v")));
}

#[test]
fn acceptor_steps() {
    assert_eq!(accept_step(0, AcceptEvent::Accepted), (1, AcceptAction::Serve(1)));
    assert_eq!(accept_step(u32::MAX, AcceptEvent::Accepted), (0, AcceptAction::Serve(0)));
    assert_eq!(
        accept_step(7, AcceptEvent::NoConnection { shutdown_requested: false }),
        (7, AcceptAction::Wait)
    );
    assert_eq!(
        accept_step(7, AcceptEvent::NoConnection { shutdown_requested: true }),
        (7, AcceptAction::Shutdown)
    );
}
