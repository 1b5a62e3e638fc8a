//! The prime-checking line protocol: each line is a JSON object with a
//! `method` and a `number`, read by a small tolerant scanner, and answered
//! with whether the number is prime.
use crate::number::{
    float_literal, is_float_literal, is_prime, is_prime_big_int, is_prime_spec, parse_big,
    parse_u128, plain_decimal, decimal_value,
};
use crate::text::{
    chars_of, contains_char, is_white_space, is_whitespace, lines, lines_spec, push_char, string_of,
    trim, trim_spec,
};
use vstd::prelude::*;

verus! {

/// Why a line was refused.
#[derive(Debug, PartialEq, Eq)]
pub enum PrimeError {
    /// The first character was expected, the second was found.
    Expected(char, char),
    /// The line ended inside the object.
    UnexpectedEnd,
    /// The method is not `isPrime`.
    InvalidMethod(String),
    /// The number is missing, quoted, or not a number.
    InvalidNumber(String),
}

/// The mathematical value of a [`PrimeError`].
pub enum ErrorView {
    Expected(char, char),
    UnexpectedEnd,
    InvalidMethod(Seq<char>),
    InvalidNumber(Seq<char>),
}

impl View for PrimeError {
    type V = ErrorView;

    open spec fn view(&self) -> ErrorView {
        match self {
            PrimeError::Expected(e, f) => ErrorView::Expected(*e, *f),
            PrimeError::UnexpectedEnd => ErrorView::UnexpectedEnd,
            PrimeError::InvalidMethod(m) => ErrorView::InvalidMethod(m@),
            PrimeError::InvalidNumber(n) => ErrorView::InvalidNumber(n@),
        }
    }
}

/// What a line asks: the `method` and `number` fields, as text; a number
/// given as a string keeps its quotes.
#[derive(Debug, PartialEq, Eq)]
pub struct Request {
    pub method: String,
    pub number: String,
}

/// The characters of a line and the position of the next one to read.
pub struct Tokens {
    chars: Vec<char>,
    pos: usize,
}

impl View for Tokens {
    type V = (Seq<char>, int);

    closed spec fn view(&self) -> (Seq<char>, int) {
        (self.chars@, self.pos as int)
    }
}

impl Tokens {
    /// The position lies within the text, or just after it.
    pub closed spec fn wf(&self) -> bool {
        self.pos <= self.chars@.len()
    }

    /// The characters of `line`, before the first.
    pub fn new(line: &str) -> (r: Tokens)
        ensures
            r.wf(),
            r@ == (line@, 0int),
    {
        Tokens { chars: chars_of(line), pos: 0 }
    }

    /// The next character, left in place.
    pub fn peek(&self) -> (r: Option<char>)
        requires
            self.wf(),
        ensures
            r == char_at(self@.0, self@.1),
    {
        if self.pos < self.chars.len() {
            Some(self.chars[self.pos])
        } else {
            None
        }
    }

    /// The next character, taken.
    pub fn next(&mut self) -> (r: Option<char>)
        requires
            old(self).wf(),
        ensures
            final(self).wf(),
            final(self)@.0 == old(self)@.0,
            r == char_at(old(self)@.0, old(self)@.1),
            final(self)@.1 == if r.is_some() {
                old(self)@.1 + 1
            } else {
                old(self)@.1
            },
    {
        if self.pos < self.chars.len() {
            let c = self.chars[self.pos];
            self.pos = self.pos + 1;
            Some(c)
        } else {
            None
        }
    }
}

/// The character of `s` at `i`, if there is one.
pub open spec fn char_at(s: Seq<char>, i: int) -> Option<char> {
    if 0 <= i < s.len() {
        Some(s[i])
    } else {
        None
    }
}

/// The first position from `i` on that holds no whitespace.
pub open spec fn skip_ws(s: Seq<char>, i: int) -> int
    decreases s.len() - i,
{
    if 0 <= i < s.len() && is_white_space(s[i]) {
        skip_ws(s, i + 1)
    } else {
        i
    }
}

/// Whether the next character after whitespace is `value`.
pub open spec fn next_is(s: Seq<char>, i: int, value: char) -> bool {
    char_at(s, skip_ws(s, i)) == Some(value)
}

/// Expects `value` after whitespace: the position after it, or the error.
pub open spec fn assert_next_spec(s: Seq<char>, i: int, value: char) -> Result<int, ErrorView> {
    let j = skip_ws(s, i);
    if 0 <= j < s.len() {
        if s[j] == value {
            Ok(j + 1)
        } else {
            Err(ErrorView::Expected(value, s[j]))
        }
    } else {
        Err(ErrorView::UnexpectedEnd)
    }
}

/// `c` put in front of the text of a scan.
pub open spec fn prefix(c: char, r: Option<(Seq<char>, int)>) -> Option<(Seq<char>, int)> {
    match r {
        Some((v, j)) => Some((seq![c] + v, j)),
        None => None,
    }
}

/// `acc` put in front of the text of a scan.
pub open spec fn prepend(acc: Seq<char>, r: Option<(Seq<char>, int)>) -> Option<(Seq<char>, int)> {
    match r {
        Some((v, j)) => Some((acc + v, j)),
        None => None,
    }
}

/// Scans a value from `i`: a backslash keeps the character after it; a
/// string ends at an unescaped `"` (taken), any other value before `}` or
/// `,` (left). The text read and the position after it, or `None` when the
/// line ends first.
pub open spec fn scan_value(s: Seq<char>, i: int, is_string: bool, escaped: bool) -> Option<
    (Seq<char>, int),
>
    decreases s.len() - i,
{
    if i < 0 || i >= s.len() {
        None
    } else {
        let c = s[i];
        if escaped {
            prefix(c, scan_value(s, i + 1, is_string, false))
        } else if is_string && c == '"' {
            Some((seq![], i + 1))
        } else if !is_string && (c == '}' || c == ',') {
            Some((seq![], i))
        } else if c == '\\' {
            scan_value(s, i + 1, is_string, true)
        } else {
            prefix(c, scan_value(s, i + 1, is_string, false))
        }
    }
}

/// Reads a value at `i`; a string first expects its opening `"` after
/// whitespace.
pub open spec fn read_value_spec(s: Seq<char>, i: int, is_string: bool) -> Result<
    (Seq<char>, int),
    ErrorView,
> {
    let start = if is_string {
        assert_next_spec(s, i, '"')
    } else {
        Ok(i)
    };
    match start {
        Err(e) => Err(e),
        Ok(p) => match scan_value(s, p, is_string, false) {
            Some(r) => Ok(r),
            None => Err(ErrorView::UnexpectedEnd),
        },
    }
}

/// Skips a nested object from `i`, at bracket depth `depth`, inside a
/// string or not: the position of the `}` that brings the depth back to
/// zero, or of the first character where the depth is zero.
pub open spec fn skip_object_spec(
    s: Seq<char>,
    i: int,
    depth: int,
    in_string: bool,
    escaped: bool,
) -> Result<int, ErrorView>
    decreases s.len() - i,
{
    if i < 0 || i >= s.len() {
        Err(ErrorView::UnexpectedEnd)
    } else if in_string {
        if escaped {
            skip_object_spec(s, i + 1, depth, true, false)
        } else if s[i] == '"' {
            skip_object_spec(s, i + 1, depth, false, false)
        } else if s[i] == '\\' {
            skip_object_spec(s, i + 1, depth, true, true)
        } else {
            skip_object_spec(s, i + 1, depth, true, false)
        }
    } else if s[i] == '"' {
        skip_object_spec(s, i + 1, depth, true, false)
    } else {
        let d = if s[i] == '}' {
            depth - 1
        } else if s[i] == '{' {
            depth + 1
        } else {
            depth
        };
        if d == 0 {
            Ok(i)
        } else {
            skip_object_spec(s, i + 1, d, false, false)
        }
    }
}

/// Where the scan of an object stands: the position, whether a key comes
/// next, the last key read, and the method and number found so far.
pub struct ScanState {
    pub pos: int,
    pub want_key: bool,
    pub key: Seq<char>,
    pub method: Seq<char>,
    pub number: Seq<char>,
}

/// What one round of the scan of an object comes to.
pub enum StepView {
    /// The members are over; the closing `}` is expected at this position.
    Exit(int),
    /// The scan goes on from this state.
    Next(ScanState),
    /// The line is refused.
    Fail(ErrorView),
}

/// After a member: the end of the object, or a `,` that is expected.
pub open spec fn after_member(s: Seq<char>, st: ScanState, i: int) -> StepView {
    let p = skip_ws(s, i);
    if char_at(s, p) == Some('}') {
        StepView::Next(ScanState { pos: p, ..st })
    } else {
        match assert_next_spec(s, p, ',') {
            Ok(q) => StepView::Next(ScanState { pos: q, ..st }),
            Err(e) => StepView::Fail(e),
        }
    }
}

/// One round of the scan of an object: a key, or a `:` and a value. A
/// nested object is skipped; the values of the keys `method` and `number`
/// are kept.
pub open spec fn step_spec(s: Seq<char>, st: ScanState) -> StepView {
    if st.pos >= s.len() {
        StepView::Exit(st.pos)
    } else {
        let p = skip_ws(s, st.pos);
        if char_at(s, p) == Some('}') {
            StepView::Exit(p)
        } else if st.want_key {
            match read_value_spec(s, p, true) {
                Ok((k, q)) => StepView::Next(ScanState { pos: q, want_key: false, key: k, ..st }),
                Err(e) => StepView::Fail(e),
            }
        } else {
            match assert_next_spec(s, p, ':') {
                Err(e) => StepView::Fail(e),
                Ok(q) => {
                    let q1 = skip_ws(s, q);
                    let st1 = ScanState { want_key: true, ..st };
                    if char_at(s, q1) == Some('{') {
                        match skip_object_spec(s, q1, 0, false, false) {
                            Err(e) => StepView::Fail(e),
                            Ok(q2) => match assert_next_spec(s, q2, '}') {
                                Err(e) => StepView::Fail(e),
                                Ok(q3) => after_member(s, st1, q3),
                            },
                        }
                    } else {
                        let is_string = char_at(s, q1) == Some('"');
                        match read_value_spec(s, q1, is_string) {
                            Err(e) => StepView::Fail(e),
                            Ok((v, q2)) => {
                                let method = if st.key == "method"@ {
                                    v
                                } else {
                                    st.method
                                };
                                let number = if st.key == "number"@ {
                                    if is_string {
                                        seq!['"'] + v + seq!['"']
                                    } else {
                                        v
                                    }
                                } else {
                                    st.number
                                };
                                after_member(
                                    s,
                                    ScanState { method, number, ..st1 },
                                    q2,
                                )
                            },
                        }
                    }
                },
            }
        }
    }
}

/// The closing `}` at `p`, and the method and number found.
pub open spec fn finish_spec(s: Seq<char>, p: int, method: Seq<char>, number: Seq<char>) -> Result<
    (Seq<char>, Seq<char>),
    ErrorView,
> {
    match assert_next_spec(s, p, '}') {
        Ok(_) => Ok((method, number)),
        Err(e) => Err(e),
    }
}

/// The scan of an object from `st` to its end.
pub open spec fn scan_object(s: Seq<char>, st: ScanState) -> Result<
    (Seq<char>, Seq<char>),
    ErrorView,
>
    decreases s.len() - st.pos,
{
    match step_spec(s, st) {
        StepView::Exit(p) => finish_spec(s, p, st.method, st.number),
        StepView::Fail(e) => Err(e),
        StepView::Next(st2) => if st.pos < st2.pos <= s.len() {
            scan_object(s, st2)
        } else {
            Err(ErrorView::UnexpectedEnd)
        },
    }
}

/// A line read as one JSON object: its method and number (empty where
/// absent), or why it was refused.
pub open spec fn parse_spec(s: Seq<char>) -> Result<(Seq<char>, Seq<char>), ErrorView> {
    match assert_next_spec(s, 0, '{') {
        Err(e) => Err(e),
        Ok(p) => scan_object(
            s,
            ScanState { pos: p, want_key: true, key: seq![], method: seq![], number: seq![] },
        ),
    }
}

proof fn lemma_skip_ws_bounds(s: Seq<char>, i: int)
    requires
        0 <= i <= s.len(),
    ensures
        i <= skip_ws(s, i) <= s.len(),
        skip_ws(s, skip_ws(s, i)) == skip_ws(s, i),
    decreases s.len() - i,
{
    if 0 <= i < s.len() && is_white_space(s[i]) {
        lemma_skip_ws_bounds(s, i + 1);
    }
}

proof fn lemma_scan_bounds(s: Seq<char>, i: int, is_string: bool, escaped: bool)
    requires
        0 <= i,
    ensures
        scan_value(s, i, is_string, escaped) matches Some((_, j)) ==> i <= j <= s.len() && (
        is_string ==> i < j),
    decreases s.len() - i,
{
    if 0 <= i < s.len() {
        lemma_scan_bounds(s, i + 1, is_string, false);
        lemma_scan_bounds(s, i + 1, is_string, true);
    }
}

/// Skipping a string inside a nested object goes where scanning that
/// string as a value goes.
proof fn lemma_skip_string(s: Seq<char>, i: int, depth: int, escaped: bool)
    requires
        0 <= i,
    ensures
        match scan_value(s, i, true, escaped) {
            Some((_, j)) => skip_object_spec(s, i, depth, true, escaped) == skip_object_spec(
                s,
                j,
                depth,
                false,
                false,
            ),
            None => skip_object_spec(s, i, depth, true, escaped) == Err::<int, ErrorView>(
                ErrorView::UnexpectedEnd,
            ),
        },
    decreases s.len() - i,
{
    if 0 <= i < s.len() {
        lemma_skip_string(s, i + 1, depth, false);
        lemma_skip_string(s, i + 1, depth, true);
    }
}

proof fn lemma_skip_object_bounds(s: Seq<char>, i: int, depth: int, in_string: bool, escaped: bool)
    requires
        0 <= i,
    ensures
        skip_object_spec(s, i, depth, in_string, escaped) matches Ok(j) ==> i <= j < s.len(),
    decreases s.len() - i,
{
    if 0 <= i < s.len() {
        let d = if s[i] == '}' {
            depth - 1
        } else if s[i] == '{' {
            depth + 1
        } else {
            depth
        };
        lemma_skip_object_bounds(s, i + 1, depth, true, false);
        lemma_skip_object_bounds(s, i + 1, depth, true, true);
        lemma_skip_object_bounds(s, i + 1, depth, false, false);
        lemma_skip_object_bounds(s, i + 1, d, false, false);
    }
}

/// Moves past whitespace.
pub fn skip_whitespace(chars: &mut Tokens)
    requires
        old(chars).wf(),
    ensures
        final(chars).wf(),
        final(chars)@.0 == old(chars)@.0,
        final(chars)@.1 == skip_ws(old(chars)@.0, old(chars)@.1),
{
    let ghost s = chars@.0;
    let ghost start = chars@.1;
    loop
        invariant
            chars.wf(),
            chars@.0 == s,
            skip_ws(s, start) == skip_ws(s, chars@.1),
            s == old(chars)@.0,
            start == old(chars)@.1,
        ensures
            chars.wf(),
            chars@.0 == s,
            chars@.1 == skip_ws(s, start),
        decreases s.len() - chars@.1,
    {
        let c = match chars.peek() {
            Some(c) => c,
            None => break,
        };
        if !is_whitespace(c) {
            return;
        }
        let _ = chars.next();
    }
}

/// Expects `value` after whitespace, and takes it.
pub fn assert_next(chars: &mut Tokens, value: char) -> (r: Result<(), PrimeError>)
    requires
        old(chars).wf(),
    ensures
        final(chars).wf(),
        final(chars)@.0 == old(chars)@.0,
        match assert_next_spec(old(chars)@.0, old(chars)@.1, value) {
            Ok(p) => r is Ok && final(chars)@.1 == p,
            Err(e) => r is Err && r->Err_0@ == e,
        },
        final(chars)@.1 == if skip_ws(old(chars)@.0, old(chars)@.1) < old(chars)@.0.len() {
            skip_ws(old(chars)@.0, old(chars)@.1) + 1
        } else {
            skip_ws(old(chars)@.0, old(chars)@.1)
        },
{
    skip_whitespace(chars);
    if let Some(c) = chars.next() {
        if c == value {
            Ok(())
        } else {
            Err(PrimeError::Expected(value, c))
        }
    } else {
        Err(PrimeError::UnexpectedEnd)
    }
}

/// Moves past whitespace and tells whether `value` comes next.
pub fn is_next(chars: &mut Tokens, value: char) -> (r: bool)
    requires
        old(chars).wf(),
    ensures
        final(chars).wf(),
        final(chars)@.0 == old(chars)@.0,
        final(chars)@.1 == skip_ws(old(chars)@.0, old(chars)@.1),
        r == next_is(old(chars)@.0, old(chars)@.1, value),
{
    skip_whitespace(chars);
    match chars.peek() {
        Some(c) => c == value,
        None => false,
    }
}

/// Reads a value: a string from its opening to its closing quote, or
/// anything else up to the next `}` or `,`.
pub fn read_value(chars: &mut Tokens, is_string: bool) -> (r: Result<String, PrimeError>)
    requires
        old(chars).wf(),
    ensures
        final(chars).wf(),
        final(chars)@.0 == old(chars)@.0,
        match read_value_spec(old(chars)@.0, old(chars)@.1, is_string) {
            Ok((v, p)) => r is Ok && r->Ok_0@ == v && final(chars)@.1 == p,
            Err(e) => r is Err && r->Err_0@ == e,
        },
{
    let ghost s = chars@.0;
    let mut escaped = false;
    let mut value: Vec<char> = Vec::new();
    if is_string {
        match assert_next(chars, '"') {
            Ok(()) => {},
            Err(e) => return Err(e),
        }
    }
    let ghost start = chars@.1;
    assert(value@ + seq![] =~= seq![]);
    loop
        invariant
            chars.wf(),
            chars@.0 == s,
            start <= chars@.1,
            s == old(chars)@.0,
            read_value_spec(s, old(chars)@.1, is_string) == match scan_value(s, start, is_string, false) {
                Some(r) => Ok(r),
                None => Err(ErrorView::UnexpectedEnd),
            },
            prepend(value@, scan_value(s, chars@.1, is_string, escaped)) == scan_value(
                s,
                start,
                is_string,
                false,
            ),
        ensures
            chars.wf(),
            chars@.0 == s,
            read_value_spec(s, old(chars)@.1, is_string) == Err::<(Seq<char>, int), ErrorView>(
                ErrorView::UnexpectedEnd,
            ),
        decreases s.len() - chars@.1,
    {
        let ghost i = chars@.1;
        let c = match chars.peek() {
            Some(c) => c,
            None => break,
        };
        if escaped {
            value.push(c);
            escaped = false;
            assert(prepend(value@, scan_value(s, i + 1, is_string, false)) == prepend(
                value@.drop_last(),
                prefix(c, scan_value(s, i + 1, is_string, false)),
            )) by {
                match scan_value(s, i + 1, is_string, false) {
                    Some((v, j)) => {
                        assert(value@ + v =~= value@.drop_last() + (seq![c] + v));
                    },
                    None => {},
                }
            }
        } else if is_string && c == '"' {
            let _ = chars.next();
            assert(value@ + seq![] =~= value@);
            return Ok(string_of(&value));
        } else if !is_string && (c == '}' || c == ',') {
            assert(value@ + seq![] =~= value@);
            return Ok(string_of(&value));
        } else if c == '\\' {
            escaped = true;
        } else {
            value.push(c);
            assert(prepend(value@, scan_value(s, i + 1, is_string, false)) == prepend(
                value@.drop_last(),
                prefix(c, scan_value(s, i + 1, is_string, false)),
            )) by {
                match scan_value(s, i + 1, is_string, false) {
                    Some((v, j)) => {
                        assert(value@ + v =~= value@.drop_last() + (seq![c] + v));
                    },
                    None => {},
                }
            }
        }
        let _ = chars.next();
    }
    Err(PrimeError::UnexpectedEnd)
}

/// Skips a nested object, strings inside it included, up to the `}` that
/// closes it, which is left in place.
pub fn skip_object_value(chars: &mut Tokens) -> (r: Result<(), PrimeError>)
    requires
        old(chars).wf(),
    ensures
        final(chars).wf(),
        final(chars)@.0 == old(chars)@.0,
        match skip_object_spec(old(chars)@.0, old(chars)@.1, 0, false, false) {
            Ok(p) => r is Ok && final(chars)@.1 == p,
            Err(e) => r is Err && r->Err_0@ == e,
        },
{
    let ghost s = chars@.0;
    let ghost start = chars@.1;
    let mut brackets: i128 = 0;
    loop
        invariant
            chars.wf(),
            chars@.0 == s,
            start <= chars@.1,
            s == old(chars)@.0,
            start == old(chars)@.1,
            -(chars@.1 - start) <= brackets <= chars@.1 - start,
            skip_object_spec(s, start, 0, false, false) == skip_object_spec(
                s,
                chars@.1,
                brackets as int,
                false,
                false,
            ),
        ensures
            chars.wf(),
            chars@.0 == s,
            skip_object_spec(s, start, 0, false, false) == Err::<int, ErrorView>(
                ErrorView::UnexpectedEnd,
            ),
        decreases s.len() - chars@.1,
    {
        let ghost i = chars@.1;
        let c = match chars.peek() {
            Some(c) => c,
            None => break,
        };
        if c == '"' {
            proof {
                lemma_skip_string(s, i + 1, brackets as int, false);
                lemma_scan_bounds(s, i + 1, true, false);
                assert(skip_ws(s, i) == i);
            }
            match read_value(chars, true) {
                Ok(_) => {},
                Err(e) => return Err(e),
            }
            continue;
        } else if c == '}' {
            brackets = brackets - 1;
        } else if c == '{' {
            brackets = brackets + 1;
        }
        if brackets == 0 {
            return Ok(());
        }
        let _ = chars.next();
    }
    Err(PrimeError::UnexpectedEnd)
}

/// Which part of a member the scan of an object expects next.
#[derive(Debug, Clone, Copy, PartialEq, Eq, Structural)]
pub enum ParseState {
    Key,
    Value,
}

/// After a member: moves to the end of the object, or past a `,`.
fn finish_member(tokens: &mut Tokens) -> (r: Result<(), PrimeError>)
    requires
        old(tokens).wf(),
    ensures
        final(tokens).wf(),
        final(tokens)@.0 == old(tokens)@.0,
        ({
            let st = ScanState {
                pos: old(tokens)@.1,
                want_key: true,
                key: seq![],
                method: seq![],
                number: seq![],
            };
            match after_member(old(tokens)@.0, st, old(tokens)@.1) {
                StepView::Next(st2) => r is Ok && final(tokens)@.1 == st2.pos && old(tokens)@.1
                    <= st2.pos,
                StepView::Fail(e) => r is Err && r->Err_0@ == e,
                StepView::Exit(_) => false,
            }
        }),
{
    skip_whitespace(tokens);
    proof {
        lemma_skip_ws_bounds(old(tokens)@.0, old(tokens)@.1);
    }
    if !is_next(tokens, '}') {
        assert_next(tokens, ',')
    } else {
        Ok(())
    }
}

/// Reads one line as a JSON object and keeps its `method` and `number`.
/// Other keys are passed over, nested objects included; a number given as
/// a string keeps its quotes.
pub fn parse_json(line: &str) -> (r: Result<Request, PrimeError>)
    ensures
        match parse_spec(line@) {
            Ok((m, n)) => r is Ok && r->Ok_0.method@ == m && r->Ok_0.number@ == n,
            Err(e) => r is Err && r->Err_0@ == e,
        },
{
    let ghost s = line@;
    let mut key = String::new();
    let mut state = ParseState::Key;
    let mut method = String::new();
    let mut number = String::new();
    let mut tokens = Tokens::new(line);
    match assert_next(&mut tokens, '{') {
        Ok(()) => {},
        Err(e) => return Err(e),
    }
    loop
        invariant
            tokens.wf(),
            tokens@.0 == s,
            s == line@,
            parse_spec(s) == scan_object(
                s,
                ScanState {
                    pos: tokens@.1,
                    want_key: state == ParseState::Key,
                    key: key@,
                    method: method@,
                    number: number@,
                },
            ),
        ensures
            tokens.wf(),
            tokens@.0 == s,
            parse_spec(s) == finish_spec(s, tokens@.1, method@, number@),
        decreases s.len() - tokens@.1,
    {
        let ghost st = ScanState {
            pos: tokens@.1,
            want_key: state == ParseState::Key,
            key: key@,
            method: method@,
            number: number@,
        };
        if tokens.peek().is_none() {
            break;
        }
        proof {
            lemma_skip_ws_bounds(s, st.pos);
        }
        if is_next(&mut tokens, '}') {
            break;
        }
        let ghost p = tokens@.1;
        match state {
            ParseState::Key => {
                skip_whitespace(&mut tokens);
                proof {
                    lemma_scan_bounds(s, skip_ws(s, p) + 1, true, false);
                    lemma_skip_ws_bounds(s, p);
                }
                key = match read_value(&mut tokens, true) {
                    Ok(k) => k,
                    Err(e) => return Err(e),
                };
                state = ParseState::Value;
            },
            ParseState::Value => {
                state = ParseState::Key;
                match assert_next(&mut tokens, ':') {
                    Ok(()) => {},
                    Err(e) => return Err(e),
                }
                let ghost q = tokens@.1;
                skip_whitespace(&mut tokens);
                proof {
                    lemma_skip_ws_bounds(s, q);
                }
                if is_next(&mut tokens, '{') {
                    let ghost q1 = tokens@.1;
                    proof {
                        lemma_skip_object_bounds(s, q1, 0, false, false);
                    }
                    match skip_object_value(&mut tokens) {
                        Ok(()) => {},
                        Err(e) => return Err(e),
                    }
                    proof {
                        lemma_skip_ws_bounds(s, tokens@.1);
                    }
                    match assert_next(&mut tokens, '}') {
                        Ok(()) => {},
                        Err(e) => return Err(e),
                    }
                    proof {
                        lemma_skip_ws_bounds(s, tokens@.1);
                    }
                    match finish_member(&mut tokens) {
                        Ok(()) => {},
                        Err(e) => return Err(e),
                    }
                    continue;
                }
                let ghost q1 = tokens@.1;
                let is_string = is_next(&mut tokens, '"');
                proof {
                    lemma_scan_bounds(s, q1, is_string, false);
                    if is_string {
                        lemma_scan_bounds(s, q1 + 1, is_string, false);
                    }
                }
                let value = match read_value(&mut tokens, is_string) {
                    Ok(v) => v,
                    Err(e) => return Err(e),
                };
                proof {
                    reveal_strlit("method");
                    reveal_strlit("number");
                    assert("method"@[0] != "number"@[0]);
                }
                if key == String::from_str("method") {
                    method = value;
                } else if key == String::from_str("number") {
                    number = if is_string {
                        let mut quoted = String::from_str("\"");
                        quoted.append(value.as_str());
                        quoted.append("\"");
                        proof {
                            reveal_strlit("\"");
                        }
                        assert(quoted@ =~= seq!['"'] + value@ + seq!['"']);
                        quoted
                    } else {
                        value
                    };
                }
                match finish_member(&mut tokens) {
                    Ok(()) => {},
                    Err(e) => return Err(e),
                }
            },
        }
    }
    match assert_next(&mut tokens, '}') {
        Ok(()) => {},
        Err(e) => return Err(e),
    }
    Ok(Request { method, number })
}

/// The text of an error, as the connection is sent it.
pub open spec fn message_spec(e: ErrorView) -> Seq<char> {
    match e {
        ErrorView::Expected(x, f) => "Malformed JSON: '"@ + seq![x] + "' expected, '"@ + seq![f]
            + "' found"@,
        ErrorView::UnexpectedEnd => "Malformed JSON: unexpected end of token stream"@,
        ErrorView::InvalidMethod(m) => "Malformed request: invalid method "@ + m,
        ErrorView::InvalidNumber(n) => "Malformed request: invalid number "@ + n,
    }
}

impl PrimeError {
    /// The text of this error, as the connection is sent it.
    pub fn message(&self) -> (r: String)
        ensures
            r@ == message_spec(self@),
    {
        match self {
            PrimeError::Expected(x, f) => {
                let mut t = String::from_str("Malformed JSON: '");
                push_char(&mut t, *x);
                t.append("' expected, '");
                push_char(&mut t, *f);
                t.append("' found");
                proof {
                    assert(t@ =~= "Malformed JSON: '"@ + seq![*x] + "' expected, '"@ + seq![*f]
                        + "' found"@);
                }
                t
            },
            PrimeError::UnexpectedEnd => String::from_str(
                "Malformed JSON: unexpected end of token stream",
            ),
            PrimeError::InvalidMethod(m) => {
                let mut t = String::from_str("Malformed request: invalid method ");
                t.append(m.as_str());
                t
            },
            PrimeError::InvalidNumber(n) => {
                let mut t = String::from_str("Malformed request: invalid number ");
                t.append(n.as_str());
                t
            },
        }
    }
}

/// A number is prime when it is written as decimal digits, after an
/// optional `+`, and their value is prime.
pub open spec fn number_prime(n: Seq<char>) -> bool {
    plain_decimal(n) && is_prime_spec(decimal_value(n))
}

/// The answer to a well-formed request.
pub open spec fn response_text(prime: bool) -> Seq<char> {
    "{\"method\": \"isPrime\", \"prime\": "@ + (if prime {
        "true"@
    } else {
        "false"@
    }) + "}\n"@
}

/// The value of a parsed request.
pub open spec fn request_view(r: Result<Request, PrimeError>) -> Result<
    (Seq<char>, Seq<char>),
    ErrorView,
> {
    match r {
        Ok(q) => Ok((q.method@, q.number@)),
        Err(e) => Err(e@),
    }
}

/// The answer to a request: an error for a method other than `isPrime`, or
/// for a number that is quoted or not a number; else whether it is prime.
pub open spec fn handle_spec(req: Result<(Seq<char>, Seq<char>), ErrorView>) -> Result<
    Seq<char>,
    ErrorView,
> {
    match req {
        Err(e) => Err(e),
        Ok((m, n)) => if m != "isPrime"@ {
            Err(ErrorView::InvalidMethod(m))
        } else if n.contains('"') || !float_literal(n) {
            Err(ErrorView::InvalidNumber(n))
        } else {
            Ok(response_text(number_prime(n)))
        },
    }
}

/// A `.` or a `-` keeps a text from being a plain decimal literal.
proof fn lemma_not_plain(n: Seq<char>, c: char)
    requires
        n.contains(c),
        c == '.' || c == '-',
    ensures
        !plain_decimal(n),
{
    let i = choose|i: int| 0 <= i < n.len() && n[i] == c;
    if plain_decimal(n) {
        let lo = if n.len() > 0 && n[0] == '+' {
            1int
        } else {
            0int
        };
        assert(lo <= i);
    }
}

/// Answers a parsed request, as [`handle_spec`] says.
pub fn handle_request_data(request: Result<Request, PrimeError>) -> (r: Result<String, PrimeError>)
    ensures
        match handle_spec(request_view(request)) {
            Ok(t) => r is Ok && r->Ok_0@ == t,
            Err(e) => r is Err && r->Err_0@ == e,
        },
{
    let r = match request {
        Ok(r) => r,
        Err(e) => return Err(e),
    };
    if r.method != String::from_str("isPrime") {
        return Err(PrimeError::InvalidMethod(r.method));
    }
    if contains_char(r.number.as_str(), '"') || !is_float_literal(r.number.as_str()) {
        return Err(PrimeError::InvalidNumber(r.number));
    }
    let number = r.number.as_str();
    let prime = if contains_char(number, '.') || contains_char(number, '-') {
        proof {
            if number@.contains('.') {
                lemma_not_plain(number@, '.');
            } else {
                lemma_not_plain(number@, '-');
            }
        }
        false
    } else {
        match parse_u128(number) {
            Some(n) => is_prime(n),
            None => match parse_big(number) {
                Some(big) => is_prime_big_int(big),
                None => false,
            },
        }
    };
    let mut t = String::from_str("{\"method\": \"isPrime\", \"prime\": ");
    if prime {
        t.append("true");
    } else {
        t.append("false");
    }
    t.append("}\n");
    Ok(t)
}

/// The answer to one line: the reply, or the text of the error.
pub open spec fn answer_spec(line: Seq<char>) -> Result<Seq<char>, Seq<char>> {
    match handle_spec(parse_spec(line)) {
        Ok(t) => Ok(t),
        Err(e) => Err(message_spec(e)),
    }
}

/// The replies to the lines from `i` on: each answer in turn, up to and
/// including the first error, and whether there was one.
pub open spec fn replies_from(ls: Seq<Seq<char>>, i: int) -> (Seq<Seq<char>>, bool)
    decreases ls.len() - i,
{
    if i < 0 || i >= ls.len() {
        (seq![], false)
    } else {
        match answer_spec(ls[i]) {
            Ok(t) => {
                let (rest, closed) = replies_from(ls, i + 1);
                (seq![t] + rest, closed)
            },
            Err(m) => (seq![m], true),
        }
    }
}

/// What the connection is sent after one read, and whether it is closed
/// then.
pub struct Reply {
    pub writes: Vec<String>,
    pub close: bool,
}

/// What a batch of text that ends a read comes to: a blank batch is
/// refused and closes the connection; otherwise each line is answered in
/// turn, and the first error is sent and closes the connection.
pub open spec fn respond_spec(data: Seq<char>) -> (Seq<Seq<char>>, bool) {
    if trim_spec(data).len() == 0 {
        (seq!["MALFORMED: Empty"@], true)
    } else {
        replies_from(lines_spec(data), 0)
    }
}

/// Answers the text of one read, as [`respond_spec`] says.
pub fn respond(data: &str) -> (r: Reply)
    ensures
        (r.writes@.map_values(|w: String| w@), r.close) == respond_spec(data@),
{
    let trimmed = trim(data);
    if trimmed.as_str().is_empty() {
        let mut writes: Vec<String> = Vec::new();
        writes.push(String::from_str("MALFORMED: Empty"));
        assert(writes@.map_values(|w: String| w@) =~= seq!["MALFORMED: Empty"@]);
        return Reply { writes, close: true };
    }
    let ls = lines(data);
    let ghost lv = ls@.map_values(|l: String| l@);
    let mut writes: Vec<String> = Vec::new();
    let mut i: usize = 0;
    assert(writes@.map_values(|w: String| w@) + replies_from(lv, 0).0 =~= replies_from(lv, 0).0);
    while i < ls.len()
        invariant
            lv == ls@.map_values(|l: String| l@),
            lv == lines_spec(data@),
            trim_spec(data@).len() != 0,
            i <= ls@.len(),
            writes@.map_values(|w: String| w@) + replies_from(lv, i as int).0 == replies_from(lv, 0).0,
            replies_from(lv, i as int).1 == replies_from(lv, 0).1,
        decreases ls@.len() - i,
    {
        let line = ls[i].as_str();
        assert(line@ == lv[i as int]);
        match handle_request_data(parse_json(line)) {
            Ok(out) => {
                let ghost before = writes@.map_values(|w: String| w@);
                writes.push(out);
                assert(writes@.map_values(|w: String| w@) =~= before.push(answer_spec(lv[i as int])->Ok_0));
                assert(writes@.map_values(|w: String| w@) + replies_from(lv, i + 1).0 =~= before
                    + replies_from(lv, i as int).0);
            },
            Err(e) => {
                let ghost before = writes@.map_values(|w: String| w@);
                writes.push(e.message());
                assert(writes@.map_values(|w: String| w@) =~= before + replies_from(lv, i as int).0);
                return Reply { writes, close: true };
            },
        }
        i = i + 1;
    }
    assert(writes@.map_values(|w: String| w@) =~= replies_from(lv, 0).0);
    Reply { writes, close: false }
}

} // verus!
