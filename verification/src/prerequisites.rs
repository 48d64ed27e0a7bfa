//! What the user types before anything is served or fetched: the port and address
//! of a server to connect to, and the command line of the application.
use vstd::prelude::*;
use crate::text::{chars_of, decimal, digit_char};

verus! {

/// The value of the decimal digits `d`, most significant first.
pub open spec fn digits_value(d: Seq<char>) -> nat
    decreases d.len(),
{
    if d.len() == 0 {
        0
    } else {
        digits_value(d.drop_last()) * 10 + ((d.last() as int) - ('0' as int)) as nat
    }
}

/// Every character of `d` is a decimal digit.
pub open spec fn all_digits(d: Seq<char>) -> bool {
    forall|i: int| 0 <= i < d.len() ==> '0' <= #[trigger] d[i] <= '9'
}

/// The digits of an unsigned number as written: `s` without one leading `+`.
pub open spec fn unsigned_digits(s: Seq<char>) -> Seq<char> {
    if s.len() > 0 && s[0] == '+' {
        s.drop_first()
    } else {
        s
    }
}

/// The `u16` that `s` writes, as `str::parse::<u16>` reads it: an optional `+`,
/// then at least one decimal digit, with a value that fits; nothing otherwise.
pub open spec fn parsed_u16(s: Seq<char>) -> Option<u16> {
    let d = unsigned_digits(s);
    if d.len() > 0 && all_digits(d) && digits_value(d) <= 65535 {
        Some(digits_value(d) as u16)
    } else {
        None
    }
}

proof fn lemma_digits_value_grows(d: Seq<char>, k: int)
    requires
        all_digits(d),
        0 <= k <= d.len(),
    ensures
        digits_value(d.take(k)) <= digits_value(d),
    decreases d.len() - k,
{
    if k < d.len() {
        let t = d.take(k + 1);
        assert(t.drop_last() =~= d.take(k));
        assert('0' <= t.last() <= '9') by {
            assert(t.last() == d[k]);
        }
        assert(digits_value(t) >= digits_value(d.take(k)));
        lemma_digits_value_grows(d, k + 1);
    } else {
        assert(d.take(k) =~= d);
    }
}

proof fn lemma_decimal_digits(n: nat)
    ensures
        all_digits(decimal(n)),
        digits_value(decimal(n)) == n,
        decimal(n).len() > 0,
        decimal(n)[0] != '+',
    decreases n,
{
    if n >= 10 {
        lemma_decimal_digits(n / 10);
        let d = decimal(n);
        assert(d.drop_last() =~= decimal(n / 10));
        assert(d[0] == decimal(n / 10)[0]);
        assert forall|i: int| 0 <= i < d.len() implies '0' <= #[trigger] d[i] <= '9' by {
            if i < d.len() - 1 {
                assert(d[i] == decimal(n / 10)[i]);
            }
        }
        assert((digit_char(n % 10) as int) - ('0' as int) == n % 10);
        assert(n == (n / 10) * 10 + n % 10) by (nonlinear_arith);
        assert(d.last() == digit_char(n % 10));
        assert(digits_value(d) == digits_value(d.drop_last()) * 10 + ((d.last() as int) - ('0' as int)) as nat);
    } else {
        assert((digit_char(n) as int) - ('0' as int) == n);
        let d = decimal(n);
        assert(d.drop_last() =~= Seq::<char>::empty());
        assert(digits_value(d) == digits_value(d.drop_last()) * 10 + ((d.last() as int) - ('0' as int)) as nat);
    }
}

/// A port written in decimal (as `Display` writes it) reads back as itself.
pub proof fn lemma_port_text_round_trip(p: u16)
    ensures
        parsed_u16(decimal(p as nat)) == Some(p),
{
    lemma_decimal_digits(p as nat);
}

/// The `u16` that `s` writes (see `parsed_u16`), if any.
pub fn parse_u16(s: &str) -> (r: Option<u16>)
    ensures
        r == parsed_u16(s@),
{
    let cs = chars_of(s);
    let start: usize = if cs.len() > 0 && cs[0] == '+' { 1 } else { 0 };
    let ghost d = unsigned_digits(cs@);
    proof {
        if start == 1 {
            assert(d =~= cs@.skip(1));
        } else {
            assert(d =~= cs@.skip(0));
        }
    }
    if cs.len() == start {
        return None;
    }
    let mut value: u32 = 0;
    let mut i: usize = start;
    while i < cs.len()
        invariant
            start <= i <= cs@.len(),
            cs@ == s@,
            d == unsigned_digits(s@),
            d == cs@.skip(start as int),
            all_digits(d.take(i - start)),
            value == digits_value(d.take(i - start)),
            value <= 65535,
        decreases cs@.len() - i,
    {
        let c = cs[i];
        let ghost t = d.take(i - start + 1);
        proof {
            assert(t.drop_last() =~= d.take(i - start));
            assert(t.last() == c);
        }
        if c < '0' || c > '9' {
            proof {
                assert(!all_digits(d)) by {
                    assert(d[i - start] == c);
                }
            }
            return None;
        }
        let digit = (c as u32) - ('0' as u32);
        value = value * 10 + digit;
        proof {
            assert(all_digits(t));
        }
        if value > 65535 {
            proof {
                assert(d.take(d.len() as int) =~= d);
                if all_digits(d) {
                    lemma_digits_value_grows(d, i - start + 1);
                }
            }
            return None;
        }
        i = i + 1;
    }
    assert(d.take(i - start) =~= d);
    Some(value as u16)
}

/// The port typed into the port field: the number read, or 0 for anything that
/// is not a port.
pub fn port_of_input(s: &str) -> (r: u16)
    ensures
        r == match parsed_u16(s@) {
            Some(p) => p,
            None => 0,
        },
{
    match parse_u16(s) {
        Some(p) => p,
        None => 0,
    }
}

/// The address and port of the server to connect to, as typed: the address text,
/// the address it reads as (`A`, when it reads as one), and the port.
pub struct ClientPrequistesState<A> {
    pub ip: String,
    pub valid_ip: Option<A>,
    pub port: u16,
}

/// A new address text (with the address it reads as, if any), or a new port.
pub enum ClientPrequistesMessage<A> {
    NewIp { value: String, valid: Option<A> },
    NewPort(u16),
}

impl<A> ClientPrequistesState<A> {
    /// Nothing typed yet.
    pub fn new() -> (r: Self)
        ensures
            r.ip@ == Seq::<char>::empty(),
            r.valid_ip is None,
            r.port == 0,
    {
        ClientPrequistesState { ip: String::new(), valid_ip: None, port: 0 }
    }

    /// The server can be connected to: the address reads as one and a port other
    /// than 0 is given.
    pub fn can_submit(&self) -> (r: bool)
        ensures
            r == (self.valid_ip is Some && self.port != 0),
    {
        self.valid_ip.is_some() && self.port != 0
    }
}

impl<A> ClientPrequistesMessage<A> {
    /// Takes in what was typed.
    pub fn handle(self, state: &mut ClientPrequistesState<A>)
        ensures
            match self {
                ClientPrequistesMessage::NewIp { value, valid } => final(state).ip == value
                    && final(state).valid_ip == valid && final(state).port == old(state).port,
                ClientPrequistesMessage::NewPort(p) => final(state).port == p && final(state).ip
                    == old(state).ip && final(state).valid_ip == old(state).valid_ip,
            },
    {
        match self {
            ClientPrequistesMessage::NewIp { value, valid } => {
                state.ip = value;
                state.valid_ip = valid;
            },
            ClientPrequistesMessage::NewPort(port) => {
                state.port = port;
            },
        }
    }
}

/// How the application starts, from its arguments (the program name left out):
/// with a folder and a port, it serves the folder on that port; with a folder
/// alone, on a free port; with anything else, it opens its windows. A port that
/// is not a number is refused.
pub enum LaunchMode {
    ServeOn { target: String, port: u16 },
    ServeOnFreePort { target: String },
    Windows,
    BadPort,
}

/// How the application starts with the arguments `args`.
pub fn launch_mode(args: &Vec<String>) -> (r: LaunchMode)
    ensures
        args@.len() == 2 ==> match parsed_u16(args@[1]@) {
            Some(p) => r matches LaunchMode::ServeOn { target, port } && target@ == args@[0]@
                && port == p,
            None => r is BadPort,
        },
        args@.len() == 1 ==> (r matches LaunchMode::ServeOnFreePort { target } && target@
            == args@[0]@),
        args@.len() != 1 && args@.len() != 2 ==> r is Windows,
{
    if args.len() == 2 {
        match parse_u16(args[1].as_str()) {
            Some(port) => LaunchMode::ServeOn { target: args[0].clone(), port },
            None => LaunchMode::BadPort,
        }
    } else if args.len() == 1 {
        LaunchMode::ServeOnFreePort { target: args[0].clone() }
    } else {
        LaunchMode::Windows
    }
}

} // verus!
