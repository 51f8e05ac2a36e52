//! Rendering the endpoint set for the log.
//!
//! When the advertised endpoints change, the coordinator logs the new
//! set on one line: each endpoint as its address and how it was found,
//! joined with commas.  IPv4 addresses are rendered dotted-decimal;
//! IPv6 addresses as their thirty-two hex digits.

use vstd::prelude::*;
use vstd::string::StringExecFns;

use crate::addr::{IpAddr, SockAddr};
use crate::cfg::{Endpoint, EndpointType};

verus! {

/// The digit character for one value below sixteen.
pub open spec fn digit_char(d: int) -> char {
    if d == 0 {
        '0'
    } else if d == 1 {
        '1'
    } else if d == 2 {
        '2'
    } else if d == 3 {
        '3'
    } else if d == 4 {
        '4'
    } else if d == 5 {
        '5'
    } else if d == 6 {
        '6'
    } else if d == 7 {
        '7'
    } else if d == 8 {
        '8'
    } else if d == 9 {
        '9'
    } else if d == 10 {
        'a'
    } else if d == 11 {
        'b'
    } else if d == 12 {
        'c'
    } else if d == 13 {
        'd'
    } else if d == 14 {
        'e'
    } else {
        'f'
    }
}

/// The decimal rendering of `n`, without leading zeros.
pub open spec fn spec_dec(n: nat) -> Seq<char>
    decreases n,
{
    if n < 10 {
        seq![digit_char(n as int)]
    } else {
        spec_dec(n / 10).push(digit_char((n % 10) as int))
    }
}

/// The fixed-width hexadecimal rendering of `v`, `digits` digits.
pub open spec fn spec_hex(v: nat, digits: nat) -> Seq<char>
    decreases digits,
{
    if digits == 0 {
        Seq::empty()
    } else {
        spec_hex(v / 16, (digits - 1) as nat).push(digit_char((v % 16) as int))
    }
}

/// The single-character string for one value below sixteen.
fn digit_str(d: u128) -> (r: &'static str)
    requires
        d < 16,
    ensures
        r@ == seq![digit_char(d as int)],
{
    proof {
        reveal_strlit("0");
        reveal_strlit("1");
        reveal_strlit("2");
        reveal_strlit("3");
        reveal_strlit("4");
        reveal_strlit("5");
        reveal_strlit("6");
        reveal_strlit("7");
        reveal_strlit("8");
        reveal_strlit("9");
        reveal_strlit("a");
        reveal_strlit("b");
        reveal_strlit("c");
        reveal_strlit("d");
        reveal_strlit("e");
        reveal_strlit("f");
    }
    if d == 0 {
        "0"
    } else if d == 1 {
        "1"
    } else if d == 2 {
        "2"
    } else if d == 3 {
        "3"
    } else if d == 4 {
        "4"
    } else if d == 5 {
        "5"
    } else if d == 6 {
        "6"
    } else if d == 7 {
        "7"
    } else if d == 8 {
        "8"
    } else if d == 9 {
        "9"
    } else if d == 10 {
        "a"
    } else if d == 11 {
        "b"
    } else if d == 12 {
        "c"
    } else if d == 13 {
        "d"
    } else if d == 14 {
        "e"
    } else {
        "f"
    }
}

/// Appends the decimal rendering of `n`.
fn push_dec(out: &mut String, n: u128)
    ensures
        final(out)@ == old(out)@ + spec_dec(n as nat),
    decreases n,
{
    if n >= 10 {
        push_dec(out, n / 10);
    }
    out.append(digit_str(n % 10));
    proof {
        assert(final(out)@ =~= old(out)@ + spec_dec(n as nat));
    }
}

/// Appends the fixed-width hexadecimal rendering of `v`.
fn push_hex(out: &mut String, v: u128, digits: usize)
    ensures
        final(out)@ == old(out)@ + spec_hex(v as nat, digits as nat),
    decreases digits,
{
    if digits == 0 {
        proof {
            assert(final(out)@ =~= old(out)@ + spec_hex(v as nat, 0));
        }
        return ;
    }
    push_hex(out, v / 16, digits - 1);
    out.append(digit_str(v % 16));
    proof {
        assert(final(out)@ =~= old(out)@ + spec_hex(v as nat, digits as nat));
    }
}

/// The rendering of one socket address: dotted-decimal IPv4, or the
/// thirty-two hex digits of an IPv6 address, then a colon and the
/// port.
pub open spec fn spec_render_addr(a: SockAddr) -> Seq<char> {
    let ip = match a.ip {
        IpAddr::V4(v) => spec_dec((v / 0x100_0000) as nat) + seq!['.'] + spec_dec(
            ((v / 0x1_0000) % 0x100) as nat,
        ) + seq!['.'] + spec_dec(((v / 0x100) % 0x100) as nat) + seq!['.'] + spec_dec(
            (v % 0x100) as nat,
        ),
        IpAddr::V6(v) => spec_hex(v as nat, 32),
    };
    ip + seq![':'] + spec_dec(a.port as nat)
}

/// Appends the rendering of one socket address.
fn push_addr(out: &mut String, a: SockAddr)
    ensures
        final(out)@ == old(out)@ + spec_render_addr(a),
{
    proof {
        reveal_strlit(".");
        reveal_strlit(":");
    }
    match a.ip {
        IpAddr::V4(v) => {
            push_dec(out, (v / 0x100_0000) as u128);
            out.append(".");
            push_dec(out, ((v / 0x1_0000) % 0x100) as u128);
            out.append(".");
            push_dec(out, ((v / 0x100) % 0x100) as u128);
            out.append(".");
            push_dec(out, (v % 0x100) as u128);
        },
        IpAddr::V6(v) => {
            push_hex(out, v, 32);
        },
    }
    out.append(":");
    push_dec(out, a.port as u128);
    proof {
        assert(final(out)@ =~= old(out)@ + spec_render_addr(a));
    }
}

/// The name of an endpoint type.
pub open spec fn spec_typ_name(t: EndpointType) -> Seq<char> {
    match t {
        EndpointType::Portmapped => "portmapped"@,
        EndpointType::Stun => "stun"@,
        EndpointType::Stun4LocalPort => "stun4localport"@,
        EndpointType::Local => "local"@,
    }
}

/// The rendering of one endpoint: its address, then how it was found,
/// in parentheses.
pub open spec fn spec_render_endpoint(e: Endpoint) -> Seq<char> {
    spec_render_addr(e.addr) + " ("@ + spec_typ_name(e.typ) + ")"@
}

/// The rendering of an endpoint list, comma-joined.
pub open spec fn spec_render_endpoints(s: Seq<Endpoint>) -> Seq<char>
    decreases s.len(),
{
    if s.len() == 0 {
        Seq::empty()
    } else if s.len() == 1 {
        spec_render_endpoint(s[0])
    } else {
        spec_render_endpoint(s[0]) + ", "@ + spec_render_endpoints(s.drop_first())
    }
}

/// Appends the rendering of one endpoint.
fn push_endpoint(out: &mut String, e: &Endpoint)
    ensures
        final(out)@ == old(out)@ + spec_render_endpoint(*e),
{
    push_addr(out, e.addr);
    out.append(" (");
    match e.typ {
        EndpointType::Portmapped => out.append("portmapped"),
        EndpointType::Stun => out.append("stun"),
        EndpointType::Stun4LocalPort => out.append("stun4localport"),
        EndpointType::Local => out.append("local"),
    }
    out.append(")");
    proof {
        assert(final(out)@ =~= old(out)@ + spec_render_endpoint(*e));
    }
}

/// Appends the rendering of `eps[i..]`.
fn push_endpoints(out: &mut String, eps: &Vec<Endpoint>, i: usize)
    requires
        i <= eps@.len(),
    ensures
        final(out)@ == old(out)@ + spec_render_endpoints(eps@.skip(i as int)),
    decreases eps@.len() - i,
{
    if i == eps.len() {
        proof {
            assert(final(out)@ =~= old(out)@ + spec_render_endpoints(eps@.skip(i as int)));
        }
        return ;
    }
    proof {
        assert(eps@.skip(i as int)[0] == eps@[i as int]);
        assert(eps@.skip(i as int).drop_first() =~= eps@.skip(i + 1));
    }
    push_endpoint(out, &eps[i]);
    if i + 1 < eps.len() {
        out.append(", ");
    }
    push_endpoints(out, eps, i + 1);
    proof {
        assert(final(out)@ =~= old(out)@ + spec_render_endpoints(eps@.skip(i as int)));
    }
}

/// The one-line description of a changed endpoint set, for the log:
/// each endpoint's address and type, comma-joined.
pub fn log_endpoint_change(endpoints: &Vec<Endpoint>) -> (r: String)
    ensures
        r@ == spec_render_endpoints(endpoints@),
{
    let mut out = String::new();
    push_endpoints(&mut out, endpoints, 0);
    proof {
        assert(endpoints@.skip(0) =~= endpoints@);
        assert(out@ =~= spec_render_endpoints(endpoints@));
    }
    out
}

} // verus!
