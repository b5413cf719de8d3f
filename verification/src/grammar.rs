//! The identifier grammar: parsing and formatting of the compact textual
//! encodings of nets (`pin` or `device:pin`), functions (`name` or
//! `name.signal`) and connections (`net@function`).
//!
//! The spec-level parsers [`parse_net_spec`], [`parse_function_spec`] and
//! [`parse_connection_spec`] define the grammar; the executable parsers are
//! proved to return exactly what those define, and the formatters invert
//! them ([`lemma_net_round_trip`] and friends).

use vstd::prelude::*;
use vstd::string::StrSliceExecFns;
use vstd::string::StringExecFns;

use crate::model::{
    Connection, ConnectionView, Function, FunctionView, GrammarKind, Net, NetView, SchematicError,
    SchematicErrorView,
};

verus! {

/// How many times `c` occurs in `s`.
pub open spec fn count_char(s: Seq<char>, c: char) -> nat
    decreases s.len(),
{
    if s.len() == 0 {
        0
    } else {
        count_char(s.drop_last(), c) + if s.last() == c {
            1nat
        } else {
            0nat
        }
    }
}

/// Index of the first occurrence of `c` in `s`, or -1 if there is none.
pub open spec fn first_pos(s: Seq<char>, c: char) -> int
    decreases s.len(),
{
    if s.len() == 0 {
        -1
    } else if s.first() == c {
        0
    } else {
        let r = first_pos(s.drop_first(), c);
        if r == -1 {
            -1
        } else {
            r + 1
        }
    }
}

/// `first_pos` returns -1 exactly when `c` is absent, and otherwise the
/// least index holding `c`.
pub proof fn lemma_first_pos(s: Seq<char>, c: char)
    ensures
        first_pos(s, c) == -1 ==> forall|j: int| 0 <= j < s.len() ==> s[j] != c,
        first_pos(s, c) != -1 ==> {
            let i = first_pos(s, c);
            &&& 0 <= i < s.len()
            &&& s[i] == c
            &&& forall|j: int| 0 <= j < i ==> s[j] != c
        },
    decreases s.len(),
{
    if s.len() == 0 {
    } else if s.first() == c {
    } else {
        lemma_first_pos(s.drop_first(), c);
        let r = first_pos(s.drop_first(), c);
        assert(forall|j: int| 0 <= j < s.drop_first().len() ==> s.drop_first()[j] == s[j + 1]);
        if r == -1 {
            assert forall|j: int| 0 <= j < s.len() implies s[j] != c by {
                if j > 0 {
                    assert(s.drop_first()[j - 1] == s[j]);
                }
            }
        } else {
            assert forall|j: int| 0 <= j < r + 1 implies s[j] != c by {
                if j > 0 {
                    assert(s.drop_first()[j - 1] == s[j]);
                }
            }
        }
    }
}

/// The net grammar, split on `:`. One non-empty segment is a direct SoC
/// pin; exactly two non-empty segments name a device and one of its pins;
/// every other shape is malformed.
pub open spec fn parse_net_spec(s: Seq<char>) -> Option<NetView> {
    let n = count_char(s, ':');
    let i = first_pos(s, ':');
    if n == 0 && s.len() > 0 {
        Some(NetView::Direct { pin: s })
    } else if n == 1 && 1 <= i && i + 2 <= s.len() {
        Some(NetView::Device { device: s.take(i), pin: s.skip(i + 1) })
    } else {
        None
    }
}

/// Canonical text of a net: `pin` or `device:pin`.
pub open spec fn net_text(n: NetView) -> Seq<char> {
    match n {
        NetView::Direct { pin } => pin,
        NetView::Device { device, pin } => device + seq![':'] + pin,
    }
}

/// The function grammar, split on the first `.`. A dot separates the
/// peripheral name from the signal (which may itself contain dots); without
/// a dot the whole text is a simple function name. Parsing never fails.
pub open spec fn parse_function_spec(s: Seq<char>) -> FunctionView {
    let i = first_pos(s, '.');
    if i == -1 {
        FunctionView::Simple { name: s }
    } else {
        FunctionView::Peripheral { name: s.take(i), signal: s.skip(i + 1) }
    }
}

/// Canonical text of a function: `name` or `name.signal`.
pub open spec fn function_text(f: FunctionView) -> Seq<char> {
    match f {
        FunctionView::Simple { name } => name,
        FunctionView::Peripheral { name, signal } => name + seq!['.'] + signal,
    }
}

/// The connection grammar: exactly one `@` with non-empty text on both
/// sides, the left side a well-formed net, the right side a function.
pub open spec fn parse_connection_spec(s: Seq<char>) -> Option<ConnectionView> {
    let n = count_char(s, '@');
    let i = first_pos(s, '@');
    if n == 1 && 1 <= i && i + 2 <= s.len() {
        match parse_net_spec(s.take(i)) {
            Some(nv) => Some(
                ConnectionView { net: nv, function: parse_function_spec(s.skip(i + 1)) },
            ),
            None => None,
        }
    } else {
        None
    }
}

/// Canonical text of a connection: `net@function`.
pub open spec fn connection_text(c: ConnectionView) -> Seq<char> {
    net_text(c.net) + seq!['@'] + function_text(c.function)
}

/// The error a malformed connection string parses to: the net half fails
/// against the net grammar if the overall shape was right, otherwise the
/// whole text fails against the connection grammar.
pub open spec fn connection_parse_error(s: Seq<char>) -> SchematicErrorView {
    let n = count_char(s, '@');
    let i = first_pos(s, '@');
    if n == 1 && 1 <= i && i + 2 <= s.len() {
        SchematicErrorView::InvalidFormat { text: s.take(i), grammar: GrammarKind::Net }
    } else {
        SchematicErrorView::InvalidFormat { text: s, grammar: GrammarKind::Connection }
    }
}

/// Round trip for nets: formatting a successfully parsed string gives the
/// string back.
pub proof fn lemma_net_round_trip(s: Seq<char>)
    requires
        parse_net_spec(s) is Some,
    ensures
        net_text(parse_net_spec(s).unwrap()) == s,
{
    let n = count_char(s, ':');
    let i = first_pos(s, ':');
    if n == 0 && s.len() > 0 {
    } else {
        lemma_first_pos(s, ':');
        assert(s[i] == ':');
        assert(s.take(i) + seq![':'] + s.skip(i + 1) =~= s);
    }
}

/// Round trip for functions: formatting the parse of any string gives the
/// string back.
pub proof fn lemma_function_round_trip(s: Seq<char>)
    ensures
        function_text(parse_function_spec(s)) == s,
{
    let i = first_pos(s, '.');
    if i != -1 {
        lemma_first_pos(s, '.');
        assert(s[i] == '.');
        assert(s.take(i) + seq!['.'] + s.skip(i + 1) =~= s);
    }
}

/// Round trip for connections: formatting a successfully parsed string
/// gives the string back.
pub proof fn lemma_connection_round_trip(s: Seq<char>)
    requires
        parse_connection_spec(s) is Some,
    ensures
        connection_text(parse_connection_spec(s).unwrap()) == s,
{
    let i = first_pos(s, '@');
    lemma_first_pos(s, '@');
    assert(s[i] == '@');
    lemma_net_round_trip(s.take(i));
    lemma_function_round_trip(s.skip(i + 1));
    assert(net_text(parse_net_spec(s.take(i)).unwrap()) + seq!['@'] + function_text(
        parse_function_spec(s.skip(i + 1)),
    ) =~= s);
}

/// Occurrences of a character add over concatenation.
proof fn lemma_count_char_concat(a: Seq<char>, b: Seq<char>, c: char)
    ensures
        count_char(a + b, c) == count_char(a, c) + count_char(b, c),
    decreases b.len(),
{
    if b.len() == 0 {
        assert(a + b =~= a);
    } else {
        assert((a + b).drop_last() =~= a + b.drop_last());
        assert((a + b).last() == b.last());
        lemma_count_char_concat(a, b.drop_last(), c);
    }
}

/// A character count of zero means the character is absent.
proof fn lemma_count_char_zero(s: Seq<char>, c: char)
    requires
        count_char(s, c) == 0,
    ensures
        forall|j: int| 0 <= j < s.len() ==> s[j] != c,
    decreases s.len(),
{
    if s.len() > 0 {
        lemma_count_char_zero(s.drop_last(), c);
        assert forall|j: int| 0 <= j < s.len() implies s[j] != c by {
            if j < s.len() - 1 {
                assert(s.drop_last()[j] == s[j]);
            }
        }
    }
}

/// A single delimiter character counts once.
proof fn lemma_count_char_single(c: char)
    ensures
        count_char(seq![c], c) == 1,
{
    assert(seq![c].drop_last() =~= Seq::<char>::empty());
    assert(count_char(Seq::<char>::empty(), c) == 0);
}

/// A net value is canonical when its components are non-empty and free of
/// the `:` delimiter; exactly such values are produced by parsing.
pub open spec fn valid_net(n: NetView) -> bool {
    match n {
        NetView::Direct { pin } => pin.len() > 0 && count_char(pin, ':') == 0,
        NetView::Device { device, pin } => device.len() > 0 && pin.len() > 0 && count_char(
            device,
            ':',
        ) == 0 && count_char(pin, ':') == 0,
    }
}

/// A function value is canonical when its peripheral name is free of the
/// `.` delimiter; the signal may itself contain dots.
pub open spec fn valid_function(f: FunctionView) -> bool {
    match f {
        FunctionView::Simple { name } => count_char(name, '.') == 0,
        FunctionView::Peripheral { name, signal } => count_char(name, '.') == 0,
    }
}

/// A connection value is canonical when both halves are canonical, the
/// function text is non-empty, and neither half contains the `@`
/// delimiter.
pub open spec fn valid_connection(c: ConnectionView) -> bool {
    &&& valid_net(c.net)
    &&& valid_function(c.function)
    &&& function_text(c.function).len() > 0
    &&& count_char(net_text(c.net), '@') == 0
    &&& count_char(function_text(c.function), '@') == 0
}

/// In `prefix + [c] + suffix` with `c` absent from `prefix`, the first
/// occurrence of `c` is right after the prefix.
proof fn lemma_first_pos_concat(prefix: Seq<char>, c: char, suffix: Seq<char>)
    requires
        forall|j: int| 0 <= j < prefix.len() ==> prefix[j] != c,
    ensures
        first_pos(prefix + seq![c] + suffix, c) == prefix.len(),
{
    let s = prefix + seq![c] + suffix;
    lemma_first_pos(s, c);
    assert(s[prefix.len() as int] == c);
    let fp = first_pos(s, c);
    if fp == -1 {
        assert(s[prefix.len() as int] != c);
    } else {
        if fp < prefix.len() {
            assert(s[fp] == prefix[fp]);
        }
        if fp > prefix.len() {
            assert(s[prefix.len() as int] != c);
        }
    }
}

/// A character that occurs nowhere counts zero times.
proof fn lemma_count_char_absent(s: Seq<char>, c: char)
    requires
        forall|j: int| 0 <= j < s.len() ==> s[j] != c,
    ensures
        count_char(s, c) == 0,
    decreases s.len(),
{
    if s.len() > 0 {
        assert forall|j: int| 0 <= j < s.drop_last().len() implies s.drop_last()[j] != c by {
            assert(s.drop_last()[j] == s[j]);
        }
        lemma_count_char_absent(s.drop_last(), c);
    }
}

/// What the net parser accepts is canonical: its components are non-empty
/// and delimiter-free, so it formats back to the very same text.
pub proof fn lemma_parse_net_canonical(s: Seq<char>)
    requires
        parse_net_spec(s) is Some,
    ensures
        valid_net(parse_net_spec(s).unwrap()),
{
    let n = count_char(s, ':');
    let i = first_pos(s, ':');
    if n == 0 && s.len() > 0 {
    } else {
        lemma_first_pos(s, ':');
        assert(s[i] == ':');
        assert(s =~= s.take(i) + seq![':'] + s.skip(i + 1));
        lemma_count_char_concat(s.take(i) + seq![':'], s.skip(i + 1), ':');
        lemma_count_char_concat(s.take(i), seq![':'], ':');
        lemma_count_char_single(':');
    }
}

/// What the function parser produces is canonical: the peripheral name is
/// free of dots.
pub proof fn lemma_parse_function_canonical(s: Seq<char>)
    ensures
        valid_function(parse_function_spec(s)),
{
    let i = first_pos(s, '.');
    lemma_first_pos(s, '.');
    if i == -1 {
        lemma_count_char_absent(s, '.');
    } else {
        assert forall|j: int| 0 <= j < s.take(i).len() implies s.take(i)[j] != '.' by {
            assert(s.take(i)[j] == s[j]);
        }
        lemma_count_char_absent(s.take(i), '.');
    }
}

/// What the connection parser accepts is canonical: both halves are
/// canonical and free of the `@` delimiter.
pub proof fn lemma_parse_connection_canonical(s: Seq<char>)
    requires
        parse_connection_spec(s) is Some,
    ensures
        valid_connection(parse_connection_spec(s).unwrap()),
{
    let i = first_pos(s, '@');
    lemma_first_pos(s, '@');
    assert(s[i] == '@');
    assert(s =~= s.take(i) + seq!['@'] + s.skip(i + 1));
    lemma_count_char_concat(s.take(i) + seq!['@'], s.skip(i + 1), '@');
    lemma_count_char_concat(s.take(i), seq!['@'], '@');
    lemma_count_char_single('@');
    lemma_parse_net_canonical(s.take(i));
    lemma_parse_function_canonical(s.skip(i + 1));
    lemma_net_round_trip(s.take(i));
    lemma_function_round_trip(s.skip(i + 1));
}

/// Parsing inverts formatting on canonical nets.
pub proof fn lemma_net_parse_round_trip(n: NetView)
    requires
        valid_net(n),
    ensures
        parse_net_spec(net_text(n)) == Some(n),
{
    match n {
        NetView::Direct { pin } => {
        },
        NetView::Device { device, pin } => {
            let s = device + seq![':'] + pin;
            lemma_count_char_concat(device + seq![':'], pin, ':');
            lemma_count_char_concat(device, seq![':'], ':');
            lemma_count_char_single(':');
            assert(count_char(s, ':') == 1);
            lemma_count_char_zero(device, ':');
            lemma_first_pos_concat(device, ':', pin);
            assert(s.take(device.len() as int) =~= device);
            assert(s.skip(device.len() as int + 1) =~= pin);
        },
    }
}

/// Parsing inverts formatting on canonical functions.
pub proof fn lemma_function_parse_round_trip(f: FunctionView)
    requires
        valid_function(f),
    ensures
        parse_function_spec(function_text(f)) == f,
{
    match f {
        FunctionView::Simple { name } => {
            lemma_count_char_zero(name, '.');
            lemma_first_pos(name, '.');
            let fp = first_pos(name, '.');
            if fp != -1 {
                assert(name[fp] != '.');
            }
        },
        FunctionView::Peripheral { name, signal } => {
            let s = name + seq!['.'] + signal;
            lemma_count_char_zero(name, '.');
            lemma_first_pos_concat(name, '.', signal);
            assert(s.take(name.len() as int) =~= name);
            assert(s.skip(name.len() as int + 1) =~= signal);
        },
    }
}

/// Parsing inverts formatting on canonical connections.
pub proof fn lemma_connection_parse_round_trip(c: ConnectionView)
    requires
        valid_connection(c),
    ensures
        parse_connection_spec(connection_text(c)) == Some(c),
{
    let left = net_text(c.net);
    let right = function_text(c.function);
    let s = left + seq!['@'] + right;
    lemma_count_char_concat(left + seq!['@'], right, '@');
    lemma_count_char_concat(left, seq!['@'], '@');
    lemma_count_char_single('@');
    assert(count_char(s, '@') == 1);
    lemma_count_char_zero(left, '@');
    lemma_first_pos_concat(left, '@', right);
    assert(left.len() >= 1);
    assert(s.take(left.len() as int) =~= left);
    assert(s.skip(left.len() as int + 1) =~= right);
    lemma_net_parse_round_trip(c.net);
    lemma_function_parse_round_trip(c.function);
    assert(c == (ConnectionView { net: c.net, function: c.function }));
}

/// Counts the occurrences of `c` in `s` and finds the first one.
fn scan_char(s: &str, c: char) -> (r: (usize, Option<usize>))
    ensures
        r.0 == count_char(s@, c),
        match r.1 {
            Some(f) => {
                &&& first_pos(s@, c) == f as int
                &&& 0 <= f < s@.len()
                &&& s@[f as int] == c
            },
            None => first_pos(s@, c) == -1,
        },
        r.1 is None <==> r.0 == 0,
{
    let len = s.unicode_len();
    let mut count: usize = 0;
    let mut first: Option<usize> = None;
    let mut i: usize = 0;
    while i < len
        invariant
            len == s@.len(),
            0 <= i <= len,
            count == count_char(s@.take(i as int), c),
            count <= i,
            match first {
                Some(f) => {
                    &&& 0 <= f < i
                    &&& s@[f as int] == c
                    &&& forall|j: int| 0 <= j < f ==> s@[j] != c
                },
                None => forall|j: int| 0 <= j < i ==> s@[j] != c,
            },
            first is None <==> count == 0,
        decreases len - i,
    {
        let ch = s.get_char(i);
        proof {
            assert(s@.take(i + 1).drop_last() =~= s@.take(i as int));
            assert(s@.take(i + 1).last() == s@[i as int]);
        }
        if ch == c {
            count = count + 1;
            if first.is_none() {
                first = Some(i);
            }
        }
        i += 1;
    }
    proof {
        assert(s@.take(len as int) =~= s@);
        lemma_first_pos(s@, c);
        match first {
            Some(f) => {
                let fp = first_pos(s@, c);
                if fp == -1 {
                    assert(s@[f as int] != c);
                } else {
                    if fp < f as int {
                        assert(s@[fp] != c);
                    }
                    if (f as int) < fp {
                        assert(s@[f as int] != c);
                    }
                }
            },
            None => {
                if first_pos(s@, c) != -1 {
                    assert(s@[first_pos(s@, c)] != c);
                }
            },
        }
    }
    (count, first)
}

impl Net {
    /// Parses the `pin` / `device:pin` grammar.
    pub fn parse(s: &str) -> (r: Result<Net, SchematicError>)
        ensures
            match parse_net_spec(s@) {
                Some(nv) => r matches Ok(n) && n@ == nv,
                None => r matches Err(e) && e@ == (SchematicErrorView::InvalidFormat {
                    text: s@,
                    grammar: GrammarKind::Net,
                }),
            },
    {
        let len = s.unicode_len();
        let (count, first) = scan_char(s, ':');
        if count == 0 && len > 0 {
            Ok(Net::Direct { pin: s.to_owned() })
        } else if count == 1 {
            let f = first.unwrap();
            if 1 <= f && f < len - 1 {
                let device = s.substring_char(0, f).to_owned();
                let pin = s.substring_char(f + 1, len).to_owned();
                proof {
                    assert(device@ =~= s@.take(f as int));
                    assert(pin@ =~= s@.skip(f + 1));
                }
                Ok(Net::Device { device, pin })
            } else {
                Err(SchematicError::InvalidFormat { text: s.to_owned(), grammar: GrammarKind::Net })
            }
        } else {
            Err(SchematicError::InvalidFormat { text: s.to_owned(), grammar: GrammarKind::Net })
        }
    }

    /// Canonical text form, inverse of [`Net::parse`] on well-formed input.
    pub fn to_string(&self) -> (r: String)
        ensures
            r@ == net_text(self@),
    {
        proof {
            reveal_strlit(":");
            assert(":"@ =~= seq![':']);
        }
        match self {
            Net::Direct { pin } => pin.clone(),
            Net::Device { device, pin } => {
                let mut r = device.clone();
                r.append(":");
                r.append(pin.as_str());
                r
            },
        }
    }
}

impl Function {
    /// Parses the `name` / `name.signal` grammar; never fails.
    pub fn parse(s: &str) -> (r: Function)
        ensures
            r@ == parse_function_spec(s@),
    {
        let len = s.unicode_len();
        let (_, first) = scan_char(s, '.');
        proof {
            lemma_first_pos(s@, '.');
        }
        match first {
            None => Function::Simple(s.to_owned()),
            Some(f) => {
                let name = s.substring_char(0, f).to_owned();
                let signal = s.substring_char(f + 1, len).to_owned();
                proof {
                    assert(name@ =~= s@.take(f as int));
                    assert(signal@ =~= s@.skip(f + 1));
                }
                Function::Peripheral { name, signal }
            },
        }
    }

    /// Canonical text form, inverse of [`Function::parse`].
    pub fn to_string(&self) -> (r: String)
        ensures
            r@ == function_text(self@),
    {
        proof {
            reveal_strlit(".");
            assert("."@ =~= seq!['.']);
        }
        match self {
            Function::Simple(name) => name.clone(),
            Function::Peripheral { name, signal } => {
                let mut r = name.clone();
                r.append(".");
                r.append(signal.as_str());
                r
            },
        }
    }
}

impl Connection {
    /// Parses the `net@function` grammar.
    pub fn parse(s: &str) -> (r: Result<Connection, SchematicError>)
        ensures
            match parse_connection_spec(s@) {
                Some(cv) => r matches Ok(c) && c@ == cv,
                None => r matches Err(e) && e@ == connection_parse_error(s@),
            },
    {
        let len = s.unicode_len();
        let (count, first) = scan_char(s, '@');
        if count == 1 {
            let f = first.unwrap();
            if 1 <= f && f < len - 1 {
                let net_part = s.substring_char(0, f);
                let function_part = s.substring_char(f + 1, len);
                proof {
                    assert(net_part@ =~= s@.take(f as int));
                    assert(function_part@ =~= s@.skip(f + 1));
                }
                match Net::parse(net_part) {
                    Ok(net) => {
                        let function = Function::parse(function_part);
                        return Ok(Connection { net, function });
                    },
                    Err(e) => {
                        return Err(e);
                    },
                }
            }
        }
        Err(SchematicError::InvalidFormat { text: s.to_owned(), grammar: GrammarKind::Connection })
    }

    /// Canonical text form, inverse of [`Connection::parse`] on well-formed
    /// input.
    pub fn to_string(&self) -> (r: String)
        ensures
            r@ == connection_text(self@),
    {
        proof {
            reveal_strlit("@");
            assert("@"@ =~= seq!['@']);
        }
        let mut r = self.net.to_string();
        r.append("@");
        let f = self.function.to_string();
        r.append(f.as_str());
        r
    }
}

} // verus!
