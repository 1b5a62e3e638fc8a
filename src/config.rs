//! What the server is told at startup: the kind of socket, the protocol to
//! serve, and the number of workers.
use crate::number::{decimal_value, plain_decimal};
use crate::text::{chars_of, string_of};
use vstd::prelude::*;

verus! {

/// Relies on `str::to_lowercase`: the lower-case form of `s`.
pub uninterp spec fn lower_of(s: Seq<char>) -> Seq<char>;

/// Relies on `str::to_lowercase`; the result depends on `s` alone.
#[verifier::external_body]
fn to_lowercase(s: &str) -> (r: String)
    ensures
        r@ == lower_of(s@),
{
    s.to_lowercase()
}

/// Relies on `str::parse::<usize>`: the value of an optional `+` and then
/// digits, when it fits; nothing for any other text.
#[verifier::external_body]
fn parse_usize(s: &str) -> (r: Option<usize>)
    ensures
        plain_decimal(s@) && decimal_value(s@) <= usize::MAX ==> r == Some(
            decimal_value(s@) as usize,
        ),
        !(plain_decimal(s@) && decimal_value(s@) <= usize::MAX) ==> r is None,
{
    s.parse::<usize>().ok()
}

/// The kind of socket to serve on.
#[derive(Debug, Clone, Copy, PartialEq, Eq, Structural)]
pub enum SocketType {
    Unknown,
    Tcp,
    Udp,
}

/// The protocols served over TCP.
#[derive(Debug, Clone, Copy, PartialEq, Eq, Structural)]
pub enum TcpProblem {
    Unknown,
    SmokeTest,
    PrimeTime,
    MeansToAnEnd,
    BudgetChat,
}

/// The protocols served over UDP.
#[derive(Debug, Clone, Copy, PartialEq, Eq, Structural)]
pub enum UdpProblem {
    Unknown,
    UnusualDatabaseProgram,
}

/// The names of the TCP protocols, as they are asked for.
pub const TCP_PROBLEMS: [&'static str; 4] = ["smoketest", "primetime", "meanstoanend", "budgetchat"];

/// The names of the UDP protocols, as they are asked for.
pub const UDP_PROBLEMS: [&'static str; 1] = ["unusualdatabaseprogram"];

/// The socket type a lower-case name picks.
pub open spec fn socket_type_spec(name: Seq<char>) -> SocketType {
    if name == "tcp"@ {
        SocketType::Tcp
    } else if name == "udp"@ {
        SocketType::Udp
    } else {
        SocketType::Unknown
    }
}

/// The TCP protocol a lower-case name without underscores picks.
pub open spec fn tcp_problem_spec(name: Seq<char>) -> TcpProblem {
    if name == "smoketest"@ {
        TcpProblem::SmokeTest
    } else if name == "primetime"@ {
        TcpProblem::PrimeTime
    } else if name == "meanstoanend"@ {
        TcpProblem::MeansToAnEnd
    } else if name == "budgetchat"@ {
        TcpProblem::BudgetChat
    } else {
        TcpProblem::Unknown
    }
}

/// The UDP protocol a lower-case name picks.
pub open spec fn udp_problem_spec(name: Seq<char>) -> UdpProblem {
    if name == "unusualdatabaseprogram"@ {
        UdpProblem::UnusualDatabaseProgram
    } else {
        UdpProblem::Unknown
    }
}

/// `s` without its underscores.
pub open spec fn without_underscores_spec(s: Seq<char>) -> Seq<char>
    decreases s.len(),
{
    if s.len() == 0 {
        seq![]
    } else if s.last() == '_' {
        without_underscores_spec(s.drop_last())
    } else {
        without_underscores_spec(s.drop_last()).push(s.last())
    }
}

/// `s` without its underscores.
pub fn without_underscores(s: &str) -> (r: String)
    ensures
        r@ == without_underscores_spec(s@),
{
    let v = chars_of(s);
    let mut out: Vec<char> = Vec::new();
    let mut i: usize = 0;
    while i < v.len()
        invariant
            i <= v@.len(),
            out@ == without_underscores_spec(v@.take(i as int)),
        decreases v@.len() - i,
    {
        assert(v@.take(i + 1).drop_last() =~= v@.take(i as int));
        if v[i] != '_' {
            out.push(v[i]);
        }
        i = i + 1;
    }
    assert(v@.take(i as int) =~= v@);
    string_of(&out)
}

/// The socket type a lower-case name picks.
pub fn socket_type_named(name: &str) -> (r: SocketType)
    ensures
        r == socket_type_spec(name@),
{
    let name = String::from_str(name);
    if name == String::from_str("tcp") {
        SocketType::Tcp
    } else if name == String::from_str("udp") {
        SocketType::Udp
    } else {
        SocketType::Unknown
    }
}

/// The TCP protocol a lower-case name without underscores picks.
pub fn tcp_problem_named(name: &str) -> (r: TcpProblem)
    ensures
        r == tcp_problem_spec(name@),
{
    let name = String::from_str(name);
    if name == String::from_str("smoketest") {
        TcpProblem::SmokeTest
    } else if name == String::from_str("primetime") {
        TcpProblem::PrimeTime
    } else if name == String::from_str("meanstoanend") {
        TcpProblem::MeansToAnEnd
    } else if name == String::from_str("budgetchat") {
        TcpProblem::BudgetChat
    } else {
        TcpProblem::Unknown
    }
}

/// The UDP protocol a lower-case name picks.
pub fn udp_problem_named(name: &str) -> (r: UdpProblem)
    ensures
        r == udp_problem_spec(name@),
{
    if String::from_str(name) == String::from_str("unusualdatabaseprogram") {
        UdpProblem::UnusualDatabaseProgram
    } else {
        UdpProblem::Unknown
    }
}

/// The socket type an argument asks for, in any case.
pub fn select_socket_type(arg: &str) -> (r: SocketType)
    ensures
        r == socket_type_spec(lower_of(arg@)),
{
    socket_type_named(to_lowercase(arg).as_str())
}

/// The TCP protocol an argument asks for, in any case and with any
/// underscores.
pub fn select_tcp_problem(arg: &str) -> (r: TcpProblem)
    ensures
        r == tcp_problem_spec(without_underscores_spec(lower_of(arg@))),
{
    tcp_problem_named(without_underscores(to_lowercase(arg).as_str()).as_str())
}

/// The UDP protocol an argument asks for, in any case.
pub fn select_udp_problem(arg: &str) -> (r: UdpProblem)
    ensures
        r == udp_problem_spec(lower_of(arg@)),
{
    udp_problem_named(to_lowercase(arg).as_str())
}

/// The number of workers is not a positive integer.
#[derive(Debug, Clone, Copy, PartialEq, Eq, Structural)]
pub struct ConcurrencyError;

/// The number of workers that a setting asks for: ten where there is none;
/// an error unless it is a positive integer that fits.
pub fn concurrency(setting: Option<&str>) -> (r: Result<usize, ConcurrencyError>)
    ensures
        setting is None ==> r == Ok::<usize, ConcurrencyError>(10),
        setting is Some ==> ({
            let s = setting->Some_0@;
            if plain_decimal(s) && 1 <= decimal_value(s) <= usize::MAX {
                r == Ok::<usize, ConcurrencyError>(decimal_value(s) as usize)
            } else {
                r == Err::<usize, ConcurrencyError>(ConcurrencyError)
            }
        }),
{
    let text = match setting {
        Some(s) => s,
        None => return Ok(10),
    };
    match parse_usize(text) {
        Some(n) => if n < 1 {
            Err(ConcurrencyError)
        } else {
            Ok(n)
        },
        None => Err(ConcurrencyError),
    }
}

} // verus!
