//! The listening port from the command line or the environment.

use vstd::prelude::*;
use crate::client::text::chars_of;

verus! {

/// The port used when none is given.
pub const DEFAULT_PORT: u16 = 9000;

/// The value of decimal digits, most significant first.
pub open spec fn digits_value(d: Seq<char>) -> nat
    decreases d.len(),
{
    if d.len() == 0 {
        0
    } else {
        digits_value(d.drop_last()) * 10 + (d.last() as nat - '0' as nat) as nat
    }
}

/// Every character is an ASCII digit.
pub open spec fn all_digits(d: Seq<char>) -> bool {
    forall|i: int| 0 <= i < d.len() ==> '0' <= #[trigger] d[i] <= '9'
}

/// A `u16` written in decimal, as std's `u16::from_str` reads it: an
/// optional `+`, then one or more ASCII digits whose value fits.
pub open spec fn parse_u16_spec(s: Seq<char>) -> Option<u16> {
    let d = if s.len() > 0 && s[0] == '+' { s.drop_first() } else { s };
    if d.len() > 0 && all_digits(d) && digits_value(d) <= u16::MAX {
        Some(digits_value(d) as u16)
    } else {
        None
    }
}

/// Read a `u16` written in decimal.
pub fn parse_u16(s: &str) -> (r: Option<u16>)
    ensures
        r == parse_u16_spec(s@),
{
    let c = chars_of(s);
    let start: usize = if c.len() > 0 && c[0] == '+' { 1 } else { 0 };
    let ghost d = if s@.len() > 0 && s@[0] == '+' { s@.drop_first() } else { s@ };
    proof {
        assert(d =~= c@.subrange(start as int, c@.len() as int));
    }
    if start >= c.len() {
        return None;
    }
    // The value so far, held at most one above the largest `u16`.
    let mut value: u32 = 0;
    let mut i: usize = start;
    while i < c.len()
        invariant
            start <= i <= c@.len(),
            c@ == s@,
            d == c@.subrange(start as int, c@.len() as int),
            d == (if s@.len() > 0 && s@[0] == '+' { s@.drop_first() } else { s@ }),
            all_digits(c@.subrange(start as int, i as int)),
            value == if digits_value(c@.subrange(start as int, i as int)) <= 65535 {
                digits_value(c@.subrange(start as int, i as int))
            } else {
                65536
            },
        decreases c@.len() - i,
    {
        let ch = c[i];
        if !('0' <= ch && ch <= '9') {
            proof {
                assert(d[i - start] == ch);
                assert(!all_digits(d));
            }
            return None;
        }
        let digit: u32 = (ch as u32) - ('0' as u32);
        proof {
            let p = c@.subrange(start as int, i + 1);
            assert(p.drop_last() =~= c@.subrange(start as int, i as int));
            assert(p.last() == ch);
        }
        let next: u32 = value * 10 + digit;
        value = if next > 65535 { 65536 } else { next };
        i = i + 1;
    }
    proof {
        assert(c@.subrange(start as int, c@.len() as int) == d);
    }
    if value > 65535 {
        None
    } else {
        Some(value as u16)
    }
}

/// The port named by the first `--port` or `-p` flag whose next argument
/// reads as a port, looking from position `i` on.
pub open spec fn flag_port(args: Seq<Seq<char>>, i: int) -> Option<u16>
    decreases args.len() - i,
{
    if i < 0 || i >= args.len() {
        None
    } else if (args[i] == "--port"@ || args[i] == "-p"@) && i + 1 < args.len() && parse_u16_spec(args[i + 1]) is Some {
        parse_u16_spec(args[i + 1])
    } else {
        flag_port(args, i + 1)
    }
}

/// The listening port: from the command line, else from the environment
/// value, else the default.
pub open spec fn chosen_port(args: Seq<Seq<char>>, env_port: Option<Seq<char>>) -> u16 {
    match flag_port(args, 0) {
        Some(p) => p,
        None => match env_port {
            Some(e) => match parse_u16_spec(e) {
                Some(p) => p,
                None => DEFAULT_PORT,
            },
            None => DEFAULT_PORT,
        },
    }
}

/// The texts of the arguments.
pub open spec fn texts(args: Seq<String>) -> Seq<Seq<char>> {
    args.map_values(|a: String| a@)
}

/// Pick the listening port from the program's arguments and the value of
/// the port variable of the environment, if set.
pub fn select_port(args: &Vec<String>, env_port: Option<&str>) -> (p: u16)
    ensures
        p == chosen_port(texts(args@), match env_port {
            Some(e) => Some(e@),
            None => None,
        }),
{
    let ghost a = texts(args@);
    let mut i: usize = 0;
    while i < args.len()
        invariant
            i <= args@.len(),
            a == texts(args@),
            flag_port(a, 0) == flag_port(a, i as int),
        decreases args@.len() - i,
    {
        let long = String::from_str("--port");
        let short = String::from_str("-p");
        let flag = args[i] == long || args[i] == short;
        if flag && i + 1 < args.len() {
            match parse_u16(args[i + 1].as_str()) {
                Some(port) => {
                    return port;
                },
                None => {},
            }
        }
        i = i + 1;
    }
    match env_port {
        Some(e) => match parse_u16(e) {
            Some(port) => port,
            None => DEFAULT_PORT,
        },
        None => DEFAULT_PORT,
    }
}

} // verus!
