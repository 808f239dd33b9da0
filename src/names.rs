//! Display names of wires and gates: decimal numbering and the reserved
//! prefix that marks an anonymous (generated) name.
use vstd::prelude::*;

verus! {

/// The character of a decimal digit.
pub open spec fn digit(d: nat) -> char {
    if d == 0 {
        '0'
    } else if d == 1 {
        '1'
    } else if d == 2 {
        '2'
    } else if d == 3 {
        '3'
    } else if d == 4 {
        '4'
    } else if d == 5 {
        '5'
    } else if d == 6 {
        '6'
    } else if d == 7 {
        '7'
    } else if d == 8 {
        '8'
    } else {
        '9'
    }
}

/// The decimal representation of `n`, without leading zeros.
pub open spec fn decimal(n: nat) -> Seq<char>
    decreases n,
{
    if n < 10 {
        seq![digit(n)]
    } else {
        decimal(n / 10) + seq![digit(n % 10)]
    }
}

/// A name is anonymous when it starts with the reserved marker `_`.
pub open spec fn is_reserved(s: Seq<char>) -> bool {
    s.len() > 0 && s[0] == '_'
}

/// The name of a gate: `X`, its kind, and its number.
pub open spec fn gate_name(kind: Seq<char>, n: nat) -> Seq<char> {
    seq!['X'] + kind + decimal(n)
}

/// The anonymous name of port `port` of a gate named `gate`.
pub open spec fn port_wire_name(gate: Seq<char>, port: Seq<char>) -> Seq<char> {
    seq!['_'] + gate + seq!['_'] + port
}

fn digit_str(d: u32) -> (r: &'static str)
    requires
        d < 10,
    ensures
        r@ == seq![digit(d as nat)],
{
    if d == 0 {
        proof { reveal_strlit("0"); }
        "0"
    } else if d == 1 {
        proof { reveal_strlit("1"); }
        "1"
    } else if d == 2 {
        proof { reveal_strlit("2"); }
        "2"
    } else if d == 3 {
        proof { reveal_strlit("3"); }
        "3"
    } else if d == 4 {
        proof { reveal_strlit("4"); }
        "4"
    } else if d == 5 {
        proof { reveal_strlit("5"); }
        "5"
    } else if d == 6 {
        proof { reveal_strlit("6"); }
        "6"
    } else if d == 7 {
        proof { reveal_strlit("7"); }
        "7"
    } else if d == 8 {
        proof { reveal_strlit("8"); }
        "8"
    } else {
        proof { reveal_strlit("9"); }
        "9"
    }
}

/// Appends the decimal representation of `n` to `s`.
pub fn push_decimal(s: &mut String, n: u32)
    ensures
        final(s)@ == old(s)@ + decimal(n as nat),
    decreases n,
{
    if n >= 10 {
        push_decimal(s, n / 10);
    }
    s.append(digit_str(n % 10));
    proof {
        assert(final(s)@ =~= old(s)@ + decimal(n as nat));
    }
}

/// Whether `s` starts with the reserved marker.
pub fn reserved(s: &str) -> (r: bool)
    ensures
        r == is_reserved(s@),
{
    s.unicode_len() > 0 && s.get_char(0) == '_'
}

/// A gate name: `X<kind><n>`.
pub fn make_gate_name(kind: &str, n: u32) -> (r: String)
    ensures
        r@ == gate_name(kind@, n as nat),
{
    let mut s = String::from_str("X");
    proof { reveal_strlit("X"); }
    s.append(kind);
    push_decimal(&mut s, n);
    proof {
        assert(s@ =~= gate_name(kind@, n as nat));
    }
    s
}

/// The anonymous wire name `_<gate>_<port>`.
pub fn make_port_wire_name(gate: &str, port: &str) -> (r: String)
    ensures
        r@ == port_wire_name(gate@, port@),
{
    let mut s = String::from_str("_");
    proof { reveal_strlit("_"); }
    s.append(gate);
    s.append("_");
    s.append(port);
    proof {
        assert(s@ =~= port_wire_name(gate@, port@));
    }
    s
}

} // verus!
