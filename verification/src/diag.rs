//! Diagnostics: reconstructing a display-ready stack trace from an
//! [`Error`] value, and rendering parse errors and tokens.
//!
//! The reconstruction is a pure fold over the recursive error value, from
//! the leaf outward: each user-function-call wrapper contributes one
//! stack-trace frame, each location wrapper prefixes the message with its
//! position, and the leaf kind supplies the base message.  It never needs
//! the syntax tree the error came from.

use vstd::prelude::*;
use crate::ast::Location;
use crate::ast::Str;
use crate::eval::error::Error;
use crate::eval::value::clone_bytes;

verus! {

/// The decimal digits of `n`, most significant first.
pub open spec fn dec_digits(n: nat) -> Seq<u8>
    decreases n,
{
    if n < 10 {
        seq![(48 + n) as u8]
    } else {
        dec_digits(n / 10).push((48 + n % 10) as u8)
    }
}

/// The decimal rendering of a signed value: a leading minus sign for a
/// negative one.
pub open spec fn int_digits(n: int) -> Seq<u8> {
    if n >= 0 {
        dec_digits(n as nat)
    } else {
        seq!['-' as u8] + dec_digits((-n) as nat)
    }
}

/// Appends the bytes of `s` to `out`.
pub fn push_bytes(out: &mut Vec<u8>, s: &Str)
    ensures
        final(out)@ == old(out)@ + s@,
{
    let mut i: usize = 0;
    while i < s.len()
        invariant
            i <= s@.len(),
            out@ == old(out)@ + s@.take(i as int),
        decreases s@.len() - i,
    {
        out.push(s[i]);
        proof {
            assert(out@ =~= old(out)@ + s@.take(i as int + 1));
        }
        i = i + 1;
    }
    proof {
        assert(out@ =~= old(out)@ + s@);
    }
}

/// Appends the decimal digits of `n` to `out`.
pub fn push_dec_u64(n: u64, out: &mut Vec<u8>)
    ensures
        final(out)@ == old(out)@ + dec_digits(n as nat),
    decreases n,
{
    if n < 10 {
        out.push(48 + (n as u8));
        proof {
            assert(out@ =~= old(out)@ + dec_digits(n as nat));
        }
    } else {
        push_dec_u64(n / 10, out);
        out.push(48 + ((n % 10) as u8));
        proof {
            assert(out@ =~= old(out)@ + dec_digits(n as nat));
        }
    }
}

/// Appends the decimal digits of `n` to `out`.
pub fn push_dec_usize(n: usize, out: &mut Vec<u8>)
    ensures
        final(out)@ == old(out)@ + dec_digits(n as nat),
{
    push_dec_u64(n as u64, out);
}

/// Appends the decimal rendering of `n`, sign included, to `out`.
pub fn push_dec_i64(n: i64, out: &mut Vec<u8>)
    ensures
        final(out)@ == old(out)@ + int_digits(n as int),
{
    if n >= 0 {
        push_dec_u64(n as u64, out);
    } else {
        out.push('-' as u8);
        let mag: u64 = if n == i64::MIN {
            9223372036854775808u64
        } else {
            (-n) as u64
        };
        let ghost mid = out@;
        push_dec_u64(mag, out);
        proof {
            assert(mag as nat == (-(n as int)) as nat);
            assert(mid =~= old(out)@ + seq!['-' as u8]);
            assert(out@ =~= old(out)@ + int_digits(n as int));
        }
    }
}

pub open spec fn lit_colon() -> Seq<u8> {
    seq![':' as u8]
}

fn mk_colon() -> (r: Str)
    ensures
        r@ == lit_colon(),
{
    let r: Str = vec![':' as u8];
    proof {
        assert(r@ =~= lit_colon());
    }
    r
}

pub open spec fn lit_space() -> Seq<u8> {
    seq![' ' as u8]
}

fn mk_space() -> (r: Str)
    ensures
        r@ == lit_space(),
{
    let r: Str = vec![' ' as u8];
    proof {
        assert(r@ =~= lit_space());
    }
    r
}

pub open spec fn lit_quote() -> Seq<u8> {
    seq!['\'' as u8]
}

fn mk_quote() -> (r: Str)
    ensures
        r@ == lit_quote(),
{
    let r: Str = vec!['\'' as u8];
    proof {
        assert(r@ =~= lit_quote());
    }
    r
}

pub open spec fn lit_in_quote() -> Seq<u8> {
    seq![' ' as u8, 'i' as u8, 'n' as u8, ' ' as u8, '\'' as u8]
}

fn mk_in_quote() -> (r: Str)
    ensures
        r@ == lit_in_quote(),
{
    let r: Str = vec![' ' as u8, 'i' as u8, 'n' as u8, ' ' as u8, '\'' as u8];
    proof {
        assert(r@ =~= lit_in_quote());
    }
    r
}

pub open spec fn lit_quote_colon() -> Seq<u8> {
    seq!['\'' as u8, ':' as u8]
}

fn mk_quote_colon() -> (r: Str)
    ensures
        r@ == lit_quote_colon(),
{
    let r: Str = vec!['\'' as u8, ':' as u8];
    proof {
        assert(r@ =~= lit_quote_colon());
    }
    r
}

pub open spec fn lit_colon_in_quote() -> Seq<u8> {
    seq![':' as u8, ' ' as u8, 'i' as u8, 'n' as u8, ' ' as u8, '\'' as u8]
}

fn mk_colon_in_quote() -> (r: Str)
    ensures
        r@ == lit_colon_in_quote(),
{
    let r: Str = vec![':' as u8, ' ' as u8, 'i' as u8, 'n' as u8, ' ' as u8, '\'' as u8];
    proof {
        assert(r@ =~= lit_colon_in_quote());
    }
    r
}

pub open spec fn lit_unnamed_func() -> Seq<u8> {
    seq!['<' as u8, 'u' as u8, 'n' as u8, 'n' as u8, 'a' as u8, 'm' as u8, 'e' as u8, 'd' as u8, ' ' as u8, 'f' as u8, 'u' as u8, 'n' as u8, 'c' as u8, 't' as u8, 'i' as u8, 'o' as u8, 'n' as u8, '>' as u8]
}

fn mk_unnamed_func() -> (r: Str)
    ensures
        r@ == lit_unnamed_func(),
{
    let r: Str = vec!['<' as u8, 'u' as u8, 'n' as u8, 'n' as u8, 'a' as u8, 'm' as u8, 'e' as u8, 'd' as u8, ' ' as u8, 'f' as u8, 'u' as u8, 'n' as u8, 'c' as u8, 't' as u8, 'i' as u8, 'o' as u8, 'n' as u8, '>' as u8];
    proof {
        assert(r@ =~= lit_unnamed_func());
    }
    r
}

pub open spec fn lit_root_frame() -> Seq<u8> {
    seq!['<' as u8, 'r' as u8, 'o' as u8, 'o' as u8, 't' as u8, '>' as u8]
}

fn mk_root_frame() -> (r: Str)
    ensures
        r@ == lit_root_frame(),
{
    let r: Str = vec!['<' as u8, 'r' as u8, 'o' as u8, 'o' as u8, 't' as u8, '>' as u8];
    proof {
        assert(r@ =~= lit_root_frame());
    }
    r
}

pub open spec fn lit_msg_not_func() -> Seq<u8> {
    seq!['v' as u8, 'a' as u8, 'l' as u8, 'u' as u8, 'e' as u8, ' ' as u8, 'i' as u8, 's' as u8, ' ' as u8, 'n' as u8, 'o' as u8, 't' as u8, ' ' as u8, 'a' as u8, ' ' as u8, 'f' as u8, 'u' as u8, 'n' as u8, 'c' as u8, 't' as u8, 'i' as u8, 'o' as u8, 'n' as u8]
}

fn mk_msg_not_func() -> (r: Str)
    ensures
        r@ == lit_msg_not_func(),
{
    let r: Str = vec!['v' as u8, 'a' as u8, 'l' as u8, 'u' as u8, 'e' as u8, ' ' as u8, 'i' as u8, 's' as u8, ' ' as u8, 'n' as u8, 'o' as u8, 't' as u8, ' ' as u8, 'a' as u8, ' ' as u8, 'f' as u8, 'u' as u8, 'n' as u8, 'c' as u8, 't' as u8, 'i' as u8, 'o' as u8, 'n' as u8];
    proof {
        assert(r@ =~= lit_msg_not_func());
    }
    r
}

pub open spec fn lit_msg_not_defined() -> Seq<u8> {
    seq!['\'' as u8, ' ' as u8, 'i' as u8, 's' as u8, ' ' as u8, 'n' as u8, 'o' as u8, 't' as u8, ' ' as u8, 'd' as u8, 'e' as u8, 'f' as u8, 'i' as u8, 'n' as u8, 'e' as u8, 'd' as u8]
}

fn mk_msg_not_defined() -> (r: Str)
    ensures
        r@ == lit_msg_not_defined(),
{
    let r: Str = vec!['\'' as u8, ' ' as u8, 'i' as u8, 's' as u8, ' ' as u8, 'n' as u8, 'o' as u8, 't' as u8, ' ' as u8, 'd' as u8, 'e' as u8, 'f' as u8, 'i' as u8, 'n' as u8, 'e' as u8, 'd' as u8];
    proof {
        assert(r@ =~= lit_msg_not_defined());
    }
    r
}

pub open spec fn lit_msg_cannot_bind() -> Seq<u8> {
    seq!['c' as u8, 'a' as u8, 'n' as u8, 'n' as u8, 'o' as u8, 't' as u8, ' ' as u8, 'b' as u8, 'i' as u8, 'n' as u8, 'd' as u8, ' ' as u8, 't' as u8, 'o' as u8, ' ' as u8]
}

fn mk_msg_cannot_bind() -> (r: Str)
    ensures
        r@ == lit_msg_cannot_bind(),
{
    let r: Str = vec!['c' as u8, 'a' as u8, 'n' as u8, 'n' as u8, 'o' as u8, 't' as u8, ' ' as u8, 'b' as u8, 'i' as u8, 'n' as u8, 'd' as u8, ' ' as u8, 't' as u8, 'o' as u8, ' ' as u8];
    proof {
        assert(r@ =~= lit_msg_cannot_bind());
    }
    r
}

pub open spec fn lit_msg_bound_multiple() -> Seq<u8> {
    seq!['\'' as u8, ' ' as u8, 'i' as u8, 's' as u8, ' ' as u8, 'b' as u8, 'o' as u8, 'u' as u8, 'n' as u8, 'd' as u8, ' ' as u8, 'm' as u8, 'u' as u8, 'l' as u8, 't' as u8, 'i' as u8, 'p' as u8, 'l' as u8, 'e' as u8, ' ' as u8, 't' as u8, 'i' as u8, 'm' as u8, 'e' as u8, 's' as u8, ' ' as u8, 'i' as u8, 'n' as u8, ' ' as u8, 't' as u8, 'h' as u8, 'i' as u8, 's' as u8, ' ' as u8, 'b' as u8, 'i' as u8, 'n' as u8, 'd' as u8, 'i' as u8, 'n' as u8, 'g' as u8]
}

fn mk_msg_bound_multiple() -> (r: Str)
    ensures
        r@ == lit_msg_bound_multiple(),
{
    let r: Str = vec!['\'' as u8, ' ' as u8, 'i' as u8, 's' as u8, ' ' as u8, 'b' as u8, 'o' as u8, 'u' as u8, 'n' as u8, 'd' as u8, ' ' as u8, 'm' as u8, 'u' as u8, 'l' as u8, 't' as u8, 'i' as u8, 'p' as u8, 'l' as u8, 'e' as u8, ' ' as u8, 't' as u8, 'i' as u8, 'm' as u8, 'e' as u8, 's' as u8, ' ' as u8, 'i' as u8, 'n' as u8, ' ' as u8, 't' as u8, 'h' as u8, 'i' as u8, 's' as u8, ' ' as u8, 'b' as u8, 'i' as u8, 'n' as u8, 'd' as u8, 'i' as u8, 'n' as u8, 'g' as u8];
    proof {
        assert(r@ =~= lit_msg_bound_multiple());
    }
    r
}

pub open spec fn lit_msg_already_defined() -> Seq<u8> {
    seq!['\'' as u8, ' ' as u8, 'i' as u8, 's' as u8, ' ' as u8, 'a' as u8, 'l' as u8, 'r' as u8, 'e' as u8, 'a' as u8, 'd' as u8, 'y' as u8, ' ' as u8, 'd' as u8, 'e' as u8, 'f' as u8, 'i' as u8, 'n' as u8, 'e' as u8, 'd' as u8, ' ' as u8, 'i' as u8, 'n' as u8, ' ' as u8, 't' as u8, 'h' as u8, 'e' as u8, ' ' as u8, 'c' as u8, 'u' as u8, 'r' as u8, 'r' as u8, 'e' as u8, 'n' as u8, 't' as u8, ' ' as u8, 's' as u8, 'c' as u8, 'o' as u8, 'p' as u8, 'e' as u8]
}

fn mk_msg_already_defined() -> (r: Str)
    ensures
        r@ == lit_msg_already_defined(),
{
    let r: Str = vec!['\'' as u8, ' ' as u8, 'i' as u8, 's' as u8, ' ' as u8, 'a' as u8, 'l' as u8, 'r' as u8, 'e' as u8, 'a' as u8, 'd' as u8, 'y' as u8, ' ' as u8, 'd' as u8, 'e' as u8, 'f' as u8, 'i' as u8, 'n' as u8, 'e' as u8, 'd' as u8, ' ' as u8, 'i' as u8, 'n' as u8, ' ' as u8, 't' as u8, 'h' as u8, 'e' as u8, ' ' as u8, 'c' as u8, 'u' as u8, 'r' as u8, 'r' as u8, 'e' as u8, 'n' as u8, 't' as u8, ' ' as u8, 's' as u8, 'c' as u8, 'o' as u8, 'p' as u8, 'e' as u8];
    proof {
        assert(r@ =~= lit_msg_already_defined());
    }
    r
}

pub open spec fn lit_msg_invalid_op_types() -> Seq<u8> {
    seq!['i' as u8, 'n' as u8, 'v' as u8, 'a' as u8, 'l' as u8, 'i' as u8, 'd' as u8, ' ' as u8, 't' as u8, 'y' as u8, 'p' as u8, 'e' as u8, 's' as u8, ' ' as u8, 'f' as u8, 'o' as u8, 'r' as u8, ' ' as u8, 'o' as u8, 'p' as u8, 'e' as u8, 'r' as u8, 'a' as u8, 't' as u8, 'i' as u8, 'o' as u8, 'n' as u8]
}

fn mk_msg_invalid_op_types() -> (r: Str)
    ensures
        r@ == lit_msg_invalid_op_types(),
{
    let r: Str = vec!['i' as u8, 'n' as u8, 'v' as u8, 'a' as u8, 'l' as u8, 'i' as u8, 'd' as u8, ' ' as u8, 't' as u8, 'y' as u8, 'p' as u8, 'e' as u8, 's' as u8, ' ' as u8, 'f' as u8, 'o' as u8, 'r' as u8, ' ' as u8, 'o' as u8, 'p' as u8, 'e' as u8, 'r' as u8, 'a' as u8, 't' as u8, 'i' as u8, 'o' as u8, 'n' as u8];
    proof {
        assert(r@ =~= lit_msg_invalid_op_types());
    }
    r
}

pub open spec fn lit_msg_div_zero() -> Seq<u8> {
    seq!['d' as u8, 'i' as u8, 'v' as u8, 'i' as u8, 's' as u8, 'i' as u8, 'o' as u8, 'n' as u8, ' ' as u8, 'o' as u8, 'r' as u8, ' ' as u8, 'm' as u8, 'o' as u8, 'd' as u8, 'u' as u8, 'l' as u8, 'o' as u8, ' ' as u8, 'b' as u8, 'y' as u8, ' ' as u8, 'z' as u8, 'e' as u8, 'r' as u8, 'o' as u8]
}

fn mk_msg_div_zero() -> (r: Str)
    ensures
        r@ == lit_msg_div_zero(),
{
    let r: Str = vec!['d' as u8, 'i' as u8, 'v' as u8, 'i' as u8, 's' as u8, 'i' as u8, 'o' as u8, 'n' as u8, ' ' as u8, 'o' as u8, 'r' as u8, ' ' as u8, 'm' as u8, 'o' as u8, 'd' as u8, 'u' as u8, 'l' as u8, 'o' as u8, ' ' as u8, 'b' as u8, 'y' as u8, ' ' as u8, 'z' as u8, 'e' as u8, 'r' as u8, 'o' as u8];
    proof {
        assert(r@ =~= lit_msg_div_zero());
    }
    r
}

pub open spec fn lit_msg_expected() -> Seq<u8> {
    seq!['e' as u8, 'x' as u8, 'p' as u8, 'e' as u8, 'c' as u8, 't' as u8, 'e' as u8, 'd' as u8, ' ' as u8]
}

fn mk_msg_expected() -> (r: Str)
    ensures
        r@ == lit_msg_expected(),
{
    let r: Str = vec!['e' as u8, 'x' as u8, 'p' as u8, 'e' as u8, 'c' as u8, 't' as u8, 'e' as u8, 'd' as u8, ' ' as u8];
    proof {
        assert(r@ =~= lit_msg_expected());
    }
    r
}

pub open spec fn lit_msg_args_got() -> Seq<u8> {
    seq![' ' as u8, 'a' as u8, 'r' as u8, 'g' as u8, 'u' as u8, 'm' as u8, 'e' as u8, 'n' as u8, 't' as u8, 's' as u8, ' ' as u8, 'b' as u8, 'u' as u8, 't' as u8, ' ' as u8, 'g' as u8, 'o' as u8, 't' as u8, ' ' as u8]
}

fn mk_msg_args_got() -> (r: Str)
    ensures
        r@ == lit_msg_args_got(),
{
    let r: Str = vec![' ' as u8, 'a' as u8, 'r' as u8, 'g' as u8, 'u' as u8, 'm' as u8, 'e' as u8, 'n' as u8, 't' as u8, 's' as u8, ' ' as u8, 'b' as u8, 'u' as u8, 't' as u8, ' ' as u8, 'g' as u8, 'o' as u8, 't' as u8, ' ' as u8];
    proof {
        assert(r@ =~= lit_msg_args_got());
    }
    r
}

pub open spec fn lit_msg_for() -> Seq<u8> {
    seq![' ' as u8, 'f' as u8, 'o' as u8, 'r' as u8, ' ' as u8]
}

fn mk_msg_for() -> (r: Str)
    ensures
        r@ == lit_msg_for(),
{
    let r: Str = vec![' ' as u8, 'f' as u8, 'o' as u8, 'r' as u8, ' ' as u8];
    proof {
        assert(r@ =~= lit_msg_for());
    }
    r
}

pub open spec fn lit_msg_no_string() -> Seq<u8> {
    seq!['c' as u8, 'o' as u8, 'u' as u8, 'l' as u8, 'd' as u8, 'n' as u8, '\'' as u8, 't' as u8, ' ' as u8, 'c' as u8, 'r' as u8, 'e' as u8, 'a' as u8, 't' as u8, 'e' as u8, ' ' as u8, 's' as u8, 't' as u8, 'r' as u8, 'i' as u8, 'n' as u8, 'g' as u8, ' ' as u8, 'f' as u8, 'o' as u8, 'r' as u8, ' ' as u8]
}

fn mk_msg_no_string() -> (r: Str)
    ensures
        r@ == lit_msg_no_string(),
{
    let r: Str = vec!['c' as u8, 'o' as u8, 'u' as u8, 'l' as u8, 'd' as u8, 'n' as u8, '\'' as u8, 't' as u8, ' ' as u8, 'c' as u8, 'r' as u8, 'e' as u8, 'a' as u8, 't' as u8, 'e' as u8, ' ' as u8, 's' as u8, 't' as u8, 'r' as u8, 'i' as u8, 'n' as u8, 'g' as u8, ' ' as u8, 'f' as u8, 'o' as u8, 'r' as u8, ' ' as u8];
    proof {
        assert(r@ =~= lit_msg_no_string());
    }
    r
}

pub open spec fn lit_msg_out_of_fuel() -> Seq<u8> {
    seq!['e' as u8, 'v' as u8, 'a' as u8, 'l' as u8, 'u' as u8, 'a' as u8, 't' as u8, 'i' as u8, 'o' as u8, 'n' as u8, ' ' as u8, 'b' as u8, 'u' as u8, 'd' as u8, 'g' as u8, 'e' as u8, 't' as u8, ' ' as u8, 'e' as u8, 'x' as u8, 'h' as u8, 'a' as u8, 'u' as u8, 's' as u8, 't' as u8, 'e' as u8, 'd' as u8]
}

fn mk_msg_out_of_fuel() -> (r: Str)
    ensures
        r@ == lit_msg_out_of_fuel(),
{
    let r: Str = vec!['e' as u8, 'v' as u8, 'a' as u8, 'l' as u8, 'u' as u8, 'a' as u8, 't' as u8, 'i' as u8, 'o' as u8, 'n' as u8, ' ' as u8, 'b' as u8, 'u' as u8, 'd' as u8, 'g' as u8, 'e' as u8, 't' as u8, ' ' as u8, 'e' as u8, 'x' as u8, 'h' as u8, 'a' as u8, 'u' as u8, 's' as u8, 't' as u8, 'e' as u8, 'd' as u8];
    proof {
        assert(r@ =~= lit_msg_out_of_fuel());
    }
    r
}

pub open spec fn lit_msg_invalid_token() -> Seq<u8> {
    seq!['i' as u8, 'n' as u8, 'v' as u8, 'a' as u8, 'l' as u8, 'i' as u8, 'd' as u8, ' ' as u8, 't' as u8, 'o' as u8, 'k' as u8, 'e' as u8, 'n' as u8]
}

fn mk_msg_invalid_token() -> (r: Str)
    ensures
        r@ == lit_msg_invalid_token(),
{
    let r: Str = vec!['i' as u8, 'n' as u8, 'v' as u8, 'a' as u8, 'l' as u8, 'i' as u8, 'd' as u8, ' ' as u8, 't' as u8, 'o' as u8, 'k' as u8, 'e' as u8, 'n' as u8];
    proof {
        assert(r@ =~= lit_msg_invalid_token());
    }
    r
}

pub open spec fn lit_msg_eof_expected() -> Seq<u8> {
    seq!['u' as u8, 'n' as u8, 'e' as u8, 'x' as u8, 'p' as u8, 'e' as u8, 'c' as u8, 't' as u8, 'e' as u8, 'd' as u8, ' ' as u8, 'E' as u8, 'O' as u8, 'F' as u8, ';' as u8, ' ' as u8, 'e' as u8, 'x' as u8, 'p' as u8, 'e' as u8, 'c' as u8, 't' as u8, 'e' as u8, 'd' as u8, ' ' as u8]
}

fn mk_msg_eof_expected() -> (r: Str)
    ensures
        r@ == lit_msg_eof_expected(),
{
    let r: Str = vec!['u' as u8, 'n' as u8, 'e' as u8, 'x' as u8, 'p' as u8, 'e' as u8, 'c' as u8, 't' as u8, 'e' as u8, 'd' as u8, ' ' as u8, 'E' as u8, 'O' as u8, 'F' as u8, ';' as u8, ' ' as u8, 'e' as u8, 'x' as u8, 'p' as u8, 'e' as u8, 'c' as u8, 't' as u8, 'e' as u8, 'd' as u8, ' ' as u8];
    proof {
        assert(r@ =~= lit_msg_eof_expected());
    }
    r
}

pub open spec fn lit_msg_unexpected_q() -> Seq<u8> {
    seq!['u' as u8, 'n' as u8, 'e' as u8, 'x' as u8, 'p' as u8, 'e' as u8, 'c' as u8, 't' as u8, 'e' as u8, 'd' as u8, ' ' as u8, '\'' as u8]
}

fn mk_msg_unexpected_q() -> (r: Str)
    ensures
        r@ == lit_msg_unexpected_q(),
{
    let r: Str = vec!['u' as u8, 'n' as u8, 'e' as u8, 'x' as u8, 'p' as u8, 'e' as u8, 'c' as u8, 't' as u8, 'e' as u8, 'd' as u8, ' ' as u8, '\'' as u8];
    proof {
        assert(r@ =~= lit_msg_unexpected_q());
    }
    r
}

pub open spec fn lit_msg_q_expected() -> Seq<u8> {
    seq!['\'' as u8, ';' as u8, ' ' as u8, 'e' as u8, 'x' as u8, 'p' as u8, 'e' as u8, 'c' as u8, 't' as u8, 'e' as u8, 'd' as u8, ' ' as u8]
}

fn mk_msg_q_expected() -> (r: Str)
    ensures
        r@ == lit_msg_q_expected(),
{
    let r: Str = vec!['\'' as u8, ';' as u8, ' ' as u8, 'e' as u8, 'x' as u8, 'p' as u8, 'e' as u8, 'c' as u8, 't' as u8, 'e' as u8, 'd' as u8, ' ' as u8];
    proof {
        assert(r@ =~= lit_msg_q_expected());
    }
    r
}

pub open spec fn lit_msg_extra_token() -> Seq<u8> {
    seq!['e' as u8, 'n' as u8, 'c' as u8, 'o' as u8, 'u' as u8, 'n' as u8, 't' as u8, 'e' as u8, 'r' as u8, 'e' as u8, 'd' as u8, ' ' as u8, 'e' as u8, 'x' as u8, 't' as u8, 'r' as u8, 'a' as u8, ' ' as u8, 't' as u8, 'o' as u8, 'k' as u8, 'e' as u8, 'n' as u8, ' ' as u8, '\'' as u8]
}

fn mk_msg_extra_token() -> (r: Str)
    ensures
        r@ == lit_msg_extra_token(),
{
    let r: Str = vec!['e' as u8, 'n' as u8, 'c' as u8, 'o' as u8, 'u' as u8, 'n' as u8, 't' as u8, 'e' as u8, 'r' as u8, 'e' as u8, 'd' as u8, ' ' as u8, 'e' as u8, 'x' as u8, 't' as u8, 'r' as u8, 'a' as u8, ' ' as u8, 't' as u8, 'o' as u8, 'k' as u8, 'e' as u8, 'n' as u8, ' ' as u8, '\'' as u8];
    proof {
        assert(r@ =~= lit_msg_extra_token());
    }
    r
}

pub open spec fn lit_comma_space() -> Seq<u8> {
    seq![',' as u8, ' ' as u8]
}

fn mk_comma_space() -> (r: Str)
    ensures
        r@ == lit_comma_space(),
{
    let r: Str = vec![',' as u8, ' ' as u8];
    proof {
        assert(r@ =~= lit_comma_space());
    }
    r
}

pub open spec fn lit_or_sep() -> Seq<u8> {
    seq![' ' as u8, 'o' as u8, 'r' as u8, ' ' as u8]
}

fn mk_or_sep() -> (r: Str)
    ensures
        r@ == lit_or_sep(),
{
    let r: Str = vec![' ' as u8, 'o' as u8, 'r' as u8, ' ' as u8];
    proof {
        assert(r@ =~= lit_or_sep());
    }
    r
}

pub open spec fn lit_backtick() -> Seq<u8> {
    seq!['`' as u8]
}

fn mk_backtick() -> (r: Str)
    ensures
        r@ == lit_backtick(),
{
    let r: Str = vec!['`' as u8];
    proof {
        assert(r@ =~= lit_backtick());
    }
    r
}

pub open spec fn lit_dquote() -> Seq<u8> {
    seq!['"' as u8]
}

fn mk_dquote() -> (r: Str)
    ensures
        r@ == lit_dquote(),
{
    let r: Str = vec!['"' as u8];
    proof {
        assert(r@ =~= lit_dquote());
    }
    r
}

/// A lexical token, as the lexing collaborator reports it inside a parse
/// error.
#[derive(Debug)]
pub enum Token {
    Ident(Str),
    IntLiteral(i64),
    StrLiteral(Str),
    False,
    Fn,
    Null,
    True,
    BraceClose,
    BraceOpen,
    BracketClose,
    BracketOpen,
    Colon,
    Comma,
    Div,
    Equals,
    Mod,
    Mul,
    ParenClose,
    ParenOpen,
    Semicolon,
    Sub,
    Sum,
    ColonEquals,
}

/// The display text of a token.
pub open spec fn token_text(t: Token) -> Seq<u8> {
    match t {
        Token::Ident(s) => lit_backtick() + s@ + lit_backtick(),
        Token::IntLiteral(n) => int_digits(n as int),
        Token::StrLiteral(s) => lit_dquote() + s@ + lit_dquote(),
        Token::False => seq!['`' as u8, 'f' as u8, 'a' as u8, 'l' as u8, 's' as u8, 'e' as u8, '`' as u8],
        Token::Fn => seq!['`' as u8, 'f' as u8, 'n' as u8, '`' as u8],
        Token::Null => seq!['`' as u8, 'n' as u8, 'u' as u8, 'l' as u8, 'l' as u8, '`' as u8],
        Token::True => seq!['`' as u8, 't' as u8, 'r' as u8, 'u' as u8, 'e' as u8, '`' as u8],
        Token::BraceClose => seq!['}' as u8],
        Token::BraceOpen => seq!['{' as u8],
        Token::BracketClose => seq![']' as u8],
        Token::BracketOpen => seq!['[' as u8],
        Token::Colon => seq![':' as u8],
        Token::Comma => seq![',' as u8],
        Token::Div => seq!['/' as u8],
        Token::Equals => seq!['=' as u8],
        Token::Mod => seq!['%' as u8],
        Token::Mul => seq!['*' as u8],
        Token::ParenClose => seq![')' as u8],
        Token::ParenOpen => seq!['(' as u8],
        Token::Semicolon => seq![';' as u8],
        Token::Sub => seq!['-' as u8],
        Token::Sum => seq!['+' as u8],
        Token::ColonEquals => seq![':' as u8, '=' as u8],
    }
}

/// Renders a token the way the user wrote it, for parse-error messages.
pub fn render_token_as_char(t: &Token) -> (r: Str)
    ensures
        r@ == token_text(*t),
{
    match t {
        Token::Ident(s) => {
            let mut out: Str = Vec::new();
            out.push('`' as u8);
            push_bytes(&mut out, s);
            out.push('`' as u8);
            proof {
                assert(out@ =~= token_text(*t));
            }
            out
        },
        Token::IntLiteral(n) => {
            let mut out: Str = Vec::new();
            push_dec_i64(*n, &mut out);
            proof {
                assert(out@ =~= token_text(*t));
            }
            out
        },
        Token::StrLiteral(s) => {
            let mut out: Str = Vec::new();
            out.push('"' as u8);
            push_bytes(&mut out, s);
            out.push('"' as u8);
            proof {
                assert(out@ =~= token_text(*t));
            }
            out
        },
        Token::False => {
            let r: Str = vec!['`' as u8, 'f' as u8, 'a' as u8, 'l' as u8, 's' as u8, 'e' as u8, '`' as u8];
            proof {
                assert(r@ =~= token_text(*t));
            }
            r
        },
        Token::Fn => {
            let r: Str = vec!['`' as u8, 'f' as u8, 'n' as u8, '`' as u8];
            proof {
                assert(r@ =~= token_text(*t));
            }
            r
        },
        Token::Null => {
            let r: Str = vec!['`' as u8, 'n' as u8, 'u' as u8, 'l' as u8, 'l' as u8, '`' as u8];
            proof {
                assert(r@ =~= token_text(*t));
            }
            r
        },
        Token::True => {
            let r: Str = vec!['`' as u8, 't' as u8, 'r' as u8, 'u' as u8, 'e' as u8, '`' as u8];
            proof {
                assert(r@ =~= token_text(*t));
            }
            r
        },
        Token::BraceClose => {
            let r: Str = vec!['}' as u8];
            proof {
                assert(r@ =~= token_text(*t));
            }
            r
        },
        Token::BraceOpen => {
            let r: Str = vec!['{' as u8];
            proof {
                assert(r@ =~= token_text(*t));
            }
            r
        },
        Token::BracketClose => {
            let r: Str = vec![']' as u8];
            proof {
                assert(r@ =~= token_text(*t));
            }
            r
        },
        Token::BracketOpen => {
            let r: Str = vec!['[' as u8];
            proof {
                assert(r@ =~= token_text(*t));
            }
            r
        },
        Token::Colon => {
            let r: Str = vec![':' as u8];
            proof {
                assert(r@ =~= token_text(*t));
            }
            r
        },
        Token::Comma => {
            let r: Str = vec![',' as u8];
            proof {
                assert(r@ =~= token_text(*t));
            }
            r
        },
        Token::Div => {
            let r: Str = vec!['/' as u8];
            proof {
                assert(r@ =~= token_text(*t));
            }
            r
        },
        Token::Equals => {
            let r: Str = vec!['=' as u8];
            proof {
                assert(r@ =~= token_text(*t));
            }
            r
        },
        Token::Mod => {
            let r: Str = vec!['%' as u8];
            proof {
                assert(r@ =~= token_text(*t));
            }
            r
        },
        Token::Mul => {
            let r: Str = vec!['*' as u8];
            proof {
                assert(r@ =~= token_text(*t));
            }
            r
        },
        Token::ParenClose => {
            let r: Str = vec![')' as u8];
            proof {
                assert(r@ =~= token_text(*t));
            }
            r
        },
        Token::ParenOpen => {
            let r: Str = vec!['(' as u8];
            proof {
                assert(r@ =~= token_text(*t));
            }
            r
        },
        Token::Semicolon => {
            let r: Str = vec![';' as u8];
            proof {
                assert(r@ =~= token_text(*t));
            }
            r
        },
        Token::Sub => {
            let r: Str = vec!['-' as u8];
            proof {
                assert(r@ =~= token_text(*t));
            }
            r
        },
        Token::Sum => {
            let r: Str = vec!['+' as u8];
            proof {
                assert(r@ =~= token_text(*t));
            }
            r
        },
        Token::ColonEquals => {
            let r: Str = vec![':' as u8, '=' as u8];
            proof {
                assert(r@ =~= token_text(*t));
            }
            r
        },
    }
}

/// The views of a sequence of byte strings.
pub open spec fn views_of(xs: Seq<Str>) -> Seq<Seq<u8>> {
    Seq::new(xs.len(), |i: int| xs[i]@)
}

/// `xs` joined by commas.
pub open spec fn comma_join(xs: Seq<Seq<u8>>) -> Seq<u8>
    decreases xs.len(),
{
    if xs.len() == 0 {
        Seq::empty()
    } else if xs.len() == 1 {
        xs[0]
    } else {
        comma_join(xs.drop_last()) + lit_comma_space() + xs.last()
    }
}

/// `xs` joined by commas, with ` or ` before the final element — how an
/// expected-token set reads in a parse error.
pub open spec fn join_text(xs: Seq<Seq<u8>>) -> Seq<u8> {
    if xs.len() == 0 {
        Seq::empty()
    } else if xs.len() == 1 {
        xs[0]
    } else {
        comma_join(xs.drop_last()) + lit_or_sep() + xs.last()
    }
}

/// Joins strings with commas and a final ` or `.
pub fn join_strings(xs: &Vec<Str>) -> (r: Str)
    ensures
        r@ == join_text(views_of(xs@)),
{
    let n = xs.len();
    if n == 0 {
        let r: Str = Vec::new();
        proof {
            assert(r@ =~= join_text(views_of(xs@)));
        }
        return r;
    }
    if n == 1 {
        let r = clone_bytes(&xs[0]);
        proof {
            assert(views_of(xs@)[0] == xs@[0]@);
        }
        return r;
    }
    let mut out: Str = Vec::new();
    let mut i: usize = 1;
    push_bytes(&mut out, &xs[0]);
    proof {
        assert(views_of(xs@).take(1) =~= seq![xs@[0]@]);
        assert(out@ =~= comma_join(views_of(xs@).take(1)));
    }
    while i < n - 1
        invariant
            1 <= i <= n - 1,
            n == xs@.len(),
            n >= 2,
            out@ == comma_join(views_of(xs@).take(i as int)),
        decreases n - i,
    {
        let sep = mk_comma_space();
        push_bytes(&mut out, &sep);
        push_bytes(&mut out, &xs[i]);
        proof {
            let vs = views_of(xs@);
            assert(vs.take(i as int + 1).drop_last() =~= vs.take(i as int));
            assert(vs.take(i as int + 1).last() == vs[i as int]);
            assert(out@ =~= comma_join(vs.take(i as int + 1)));
        }
        i = i + 1;
    }
    let sep = mk_or_sep();
    push_bytes(&mut out, &sep);
    push_bytes(&mut out, &xs[n - 1]);
    proof {
        let vs = views_of(xs@);
        assert(vs.drop_last() =~= vs.take(n as int - 1));
        assert(vs.last() == vs[n as int - 1]);
        assert(out@ =~= join_text(vs));
    }
    out
}

/// A lexing failure: an unexpected byte at a source position.
#[derive(Debug)]
pub enum LexError {
    Unexpected(Location, u8),
}

/// A structured parse error, as the parsing collaborator reports it: an
/// expected-token set and a source location, enough to render the
/// standard diagnostics.
#[derive(Debug)]
pub enum ParseError {
    InvalidToken { location: Location },
    UnrecognizedEof { location: Location, expected: Vec<Str> },
    UnrecognizedToken { token: (Location, Token, Location), expected: Vec<Str> },
    ExtraToken { token: (Location, Token, Location) },
    User { error: LexError },
}

/// The text a parse error renders to.
pub open spec fn parse_error_text(e: ParseError) -> Seq<u8> {
    match e {
        ParseError::InvalidToken { location } => lit_msg_invalid_token(),
        ParseError::UnrecognizedEof { location, expected } => lit_msg_eof_expected()
            + join_text(views_of(expected@)),
        ParseError::UnrecognizedToken { token, expected } => lit_msg_unexpected_q()
            + token_text(token.1) + lit_msg_q_expected() + join_text(views_of(expected@)),
        ParseError::ExtraToken { token } => lit_msg_extra_token() + token_text(token.1)
            + lit_quote(),
        ParseError::User { error } => match error {
            LexError::Unexpected(loc, c) => lit_msg_unexpected_q() + seq![c] + lit_quote(),
        },
    }
}

/// The location a parse error points at.
pub open spec fn parse_error_loc(e: ParseError) -> Location {
    match e {
        ParseError::InvalidToken { location } => location,
        ParseError::UnrecognizedEof { location, expected } => location,
        ParseError::UnrecognizedToken { token, expected } => token.0,
        ParseError::ExtraToken { token } => token.0,
        ParseError::User { error } => match error {
            LexError::Unexpected(loc, c) => loc,
        },
    }
}

/// Renders a parse error as its location and message.
pub fn render_parse_error(error: &ParseError) -> (r: (Location, Str))
    ensures
        r.0 == parse_error_loc(*error),
        r.1@ == parse_error_text(*error),
{
    match error {
        ParseError::InvalidToken { location } => {
            let msg = mk_msg_invalid_token();
            (*location, msg)
        },
        ParseError::UnrecognizedEof { location, expected } => {
            let mut out = mk_msg_eof_expected();
            let joined = join_strings(expected);
            push_bytes(&mut out, &joined);
            (*location, out)
        },
        ParseError::UnrecognizedToken { token, expected } => {
            let mut out = mk_msg_unexpected_q();
            let tok = render_token_as_char(&token.1);
            push_bytes(&mut out, &tok);
            let mid = mk_msg_q_expected();
            push_bytes(&mut out, &mid);
            let joined = join_strings(expected);
            push_bytes(&mut out, &joined);
            (token.0, out)
        },
        ParseError::ExtraToken { token } => {
            let mut out = mk_msg_extra_token();
            let tok = render_token_as_char(&token.1);
            push_bytes(&mut out, &tok);
            out.push('\'' as u8);
            proof {
                assert(out@ =~= parse_error_text(*error));
            }
            (token.0, out)
        },
        ParseError::User { error: lex } => {
            let LexError::Unexpected(loc, c) = lex;
            let mut out = mk_msg_unexpected_q();
            out.push(*c);
            out.push('\'' as u8);
            proof {
                assert(out@ =~= parse_error_text(*error));
            }
            (*loc, out)
        },
    }
}

/// The base message of a leaf error kind; wrappers contribute nothing
/// here — the fold handles them.
pub open spec fn leaf_msg(e: Error) -> Seq<u8> {
    match e {
        Error::CannotCallNonFunc { v } => lit_msg_not_func(),
        Error::Undefined { name } => lit_quote() + name@ + lit_msg_not_defined(),
        Error::InvalidBindTarget { descr } => lit_msg_cannot_bind() + descr@,
        Error::AlreadyInBinding { name } => lit_quote() + name@ + lit_msg_bound_multiple(),
        Error::AlreadyInScope { name } => lit_quote() + name@ + lit_msg_already_defined(),
        Error::InvalidOpTypes { op, lhs, rhs } => lit_msg_invalid_op_types(),
        Error::DivideByZero { op } => lit_msg_div_zero(),
        Error::ArgNumMismatch { need, got } => lit_msg_expected() + dec_digits(need as nat)
            + lit_msg_args_got() + dec_digits(got as nat),
        Error::IncorrectType { descr, exp_type, value } => lit_msg_expected() + exp_type@
            + lit_msg_for() + descr@,
        Error::StringConstructionFailed { descr } => lit_msg_no_string() + descr@,
        Error::BuiltinFuncErr { msg } => msg@,
        Error::OutOfFuel => lit_msg_out_of_fuel(),
        Error::AtLoc { .. } => Seq::empty(),
        Error::EvalBuiltinFuncCallFailed { .. } => Seq::empty(),
        Error::EvalFuncCallFailed { .. } => Seq::empty(),
    }
}

/// Renders a leaf error's base message.
fn render_leaf_msg(e: &Error) -> (r: Str)
    ensures
        r@ == leaf_msg(*e),
{
    match e {
        Error::CannotCallNonFunc { v } => mk_msg_not_func(),
        Error::Undefined { name } => {
            let mut out = mk_quote();
            push_bytes(&mut out, name);
            let tail = mk_msg_not_defined();
            push_bytes(&mut out, &tail);
            out
        },
        Error::InvalidBindTarget { descr } => {
            let mut out = mk_msg_cannot_bind();
            push_bytes(&mut out, descr);
            out
        },
        Error::AlreadyInBinding { name } => {
            let mut out = mk_quote();
            push_bytes(&mut out, name);
            let tail = mk_msg_bound_multiple();
            push_bytes(&mut out, &tail);
            out
        },
        Error::AlreadyInScope { name } => {
            let mut out = mk_quote();
            push_bytes(&mut out, name);
            let tail = mk_msg_already_defined();
            push_bytes(&mut out, &tail);
            out
        },
        Error::InvalidOpTypes { .. } => mk_msg_invalid_op_types(),
        Error::DivideByZero { .. } => mk_msg_div_zero(),
        Error::ArgNumMismatch { need, got } => {
            let mut out = mk_msg_expected();
            push_dec_usize(*need, &mut out);
            let mid = mk_msg_args_got();
            push_bytes(&mut out, &mid);
            push_dec_usize(*got, &mut out);
            out
        },
        Error::IncorrectType { descr, exp_type, value } => {
            let mut out = mk_msg_expected();
            push_bytes(&mut out, exp_type);
            let mid = mk_msg_for();
            push_bytes(&mut out, &mid);
            push_bytes(&mut out, descr);
            out
        },
        Error::StringConstructionFailed { descr } => {
            let mut out = mk_msg_no_string();
            push_bytes(&mut out, descr);
            out
        },
        Error::BuiltinFuncErr { msg } => clone_bytes(msg),
        Error::OutOfFuel => mk_msg_out_of_fuel(),
        Error::AtLoc { .. } => Vec::new(),
        Error::EvalBuiltinFuncCallFailed { .. } => Vec::new(),
        Error::EvalFuncCallFailed { .. } => Vec::new(),
    }
}

/// The display name of a possibly anonymous function.
pub open spec fn opt_name(func_name: Option<Str>) -> Seq<u8> {
    match func_name {
        Some(n) => n@,
        None => lit_unnamed_func(),
    }
}

/// The ` in 'f':` separator a message carries when it arose inside a
/// named call.
pub open spec fn msg_sep(func: Option<Seq<u8>>) -> Seq<u8> {
    match func {
        Some(f) => lit_in_quote() + f + lit_quote_colon(),
        None => Seq::empty(),
    }
}

/// The `line:col:[ in 'f':] ` prefix of a located message.
pub open spec fn loc_prefix(line: nat, col: nat, func: Option<Seq<u8>>) -> Seq<u8> {
    dec_digits(line) + lit_colon() + dec_digits(col) + lit_colon() + msg_sep(func) + lit_space()
}

/// The primary message the trace reconstruction produces: each location
/// or builtin-call wrapper prefixes its position, and the leaf supplies
/// the base text.
pub open spec fn st_msg(path: Seq<u8>, func: Option<Seq<u8>>, e: Error) -> Seq<u8>
    decreases e,
{
    match e {
        Error::AtLoc { source, line, col } => loc_prefix(line as nat, col as nat, func) + st_msg(
            path,
            func,
            *source,
        ),
        Error::EvalBuiltinFuncCallFailed { source, func_name, call_loc } => loc_prefix(
            call_loc.0 as nat,
            call_loc.1 as nat,
            func,
        ) + st_msg(path, Some(opt_name(func_name)), *source),
        Error::EvalFuncCallFailed { source, func_name, call_loc } => st_msg(
            path,
            Some(opt_name(func_name)),
            *source,
        ),
        _ => leaf_msg(e),
    }
}

/// One stack-trace frame: `path:line:col: in 'f'`.
pub open spec fn frame_text(path: Seq<u8>, line: nat, col: nat, func: Option<Seq<u8>>) -> Seq<u8> {
    path + lit_colon() + dec_digits(line) + lit_colon() + dec_digits(col) + lit_colon_in_quote() + (
    match func {
        Some(f) => f,
        None => lit_root_frame(),
    }) + lit_quote()
}

/// The stack-trace frames the reconstruction produces, innermost call
/// first: each user-function-call wrapper contributes exactly one frame
/// carrying its own call site.
pub open spec fn st_frames(path: Seq<u8>, func: Option<Seq<u8>>, e: Error) -> Seq<Seq<u8>>
    decreases e,
{
    match e {
        Error::AtLoc { source, line, col } => st_frames(path, func, *source),
        Error::EvalBuiltinFuncCallFailed { source, func_name, call_loc } => st_frames(
            path,
            Some(opt_name(func_name)),
            *source,
        ),
        Error::EvalFuncCallFailed { source, func_name, call_loc } => st_frames(
            path,
            Some(opt_name(func_name)),
            *source,
        ).push(frame_text(path, call_loc.0 as nat, call_loc.1 as nat, func)),
        _ => Seq::empty(),
    }
}

/// A reconstructed diagnostic: the primary message and the call-stack
/// frames, innermost call first.
#[derive(Debug)]
pub struct StacktracedErrorMsg {
    pub msg: Str,
    pub stacktrace: Vec<Str>,
}

/// The view of an optional borrowed name.
pub open spec fn opt_view(func: Option<&Str>) -> Option<Seq<u8>> {
    match func {
        Some(s) => Some(s@),
        None => None,
    }
}

/// Appends the ` in 'f':` separator for `func`, if any.
fn push_sep(out: &mut Vec<u8>, func: Option<&Str>)
    ensures
        final(out)@ == old(out)@ + msg_sep(opt_view(func)),
{
    match func {
        Some(f) => {
            let pre = mk_in_quote();
            push_bytes(out, &pre);
            push_bytes(out, f);
            let post = mk_quote_colon();
            push_bytes(out, &post);
            proof {
                assert(out@ =~= old(out)@ + msg_sep(opt_view(func)));
            }
        },
        None => {
            proof {
                assert(out@ =~= old(out)@ + msg_sep(opt_view(func)));
            }
        },
    }
}

/// Reconstructs the display-ready message and call-stack trace from an
/// error value: a pure fold from the leaf outward, needing nothing but
/// the error itself.
pub fn eval_err_to_stacktrace(path: &Str, func: Option<&Str>, error: &Error) -> (r:
    StacktracedErrorMsg)
    ensures
        r.msg@ == st_msg(path@, opt_view(func), *error),
        r.stacktrace@.len() == st_frames(path@, opt_view(func), *error).len(),
        forall|i: int|
            0 <= i < r.stacktrace@.len() ==> (#[trigger] r.stacktrace@[i])@ == st_frames(
                path@,
                opt_view(func),
                *error,
            )[i],
    decreases *error,
{
    match error {
        Error::AtLoc { source, line, col } => {
            let st = eval_err_to_stacktrace(path, func, source);
            let mut msg: Str = Vec::new();
            push_dec_usize(*line, &mut msg);
            msg.push(':' as u8);
            push_dec_usize(*col, &mut msg);
            msg.push(':' as u8);
            push_sep(&mut msg, func);
            msg.push(' ' as u8);
            push_bytes(&mut msg, &st.msg);
            proof {
                assert(msg@ =~= st_msg(path@, opt_view(func), *error));
            }
            StacktracedErrorMsg { msg, stacktrace: st.stacktrace }
        },
        Error::EvalBuiltinFuncCallFailed { source, func_name, call_loc } => {
            let next: Str = match func_name {
                Some(n) => clone_bytes(n),
                None => mk_unnamed_func(),
            };
            proof {
                assert(next@ == opt_name(*func_name));
            }
            let st = eval_err_to_stacktrace(path, Some(&next), source);
            let (line, col) = *call_loc;
            let mut msg: Str = Vec::new();
            push_dec_usize(line, &mut msg);
            msg.push(':' as u8);
            push_dec_usize(col, &mut msg);
            msg.push(':' as u8);
            push_sep(&mut msg, func);
            msg.push(' ' as u8);
            push_bytes(&mut msg, &st.msg);
            proof {
                assert(msg@ =~= st_msg(path@, opt_view(func), *error));
            }
            StacktracedErrorMsg { msg, stacktrace: st.stacktrace }
        },
        Error::EvalFuncCallFailed { source, func_name, call_loc } => {
            let next: Str = match func_name {
                Some(n) => clone_bytes(n),
                None => mk_unnamed_func(),
            };
            proof {
                assert(next@ == opt_name(*func_name));
            }
            let mut st = eval_err_to_stacktrace(path, Some(&next), source);
            let (line, col) = *call_loc;
            let mut frame: Str = Vec::new();
            push_bytes(&mut frame, path);
            frame.push(':' as u8);
            push_dec_usize(line, &mut frame);
            frame.push(':' as u8);
            push_dec_usize(col, &mut frame);
            let mid = mk_colon_in_quote();
            push_bytes(&mut frame, &mid);
            match func {
                Some(f) => {
                    push_bytes(&mut frame, f);
                },
                None => {
                    let root = mk_root_frame();
                    push_bytes(&mut frame, &root);
                },
            }
            frame.push('\'' as u8);
            proof {
                assert(frame@ =~= frame_text(path@, line as nat, col as nat, opt_view(func)));
            }
            st.stacktrace.push(frame);
            proof {
                let fs = st_frames(path@, opt_view(func), *error);
                assert(fs.len() == st.stacktrace@.len());
                assert forall|i: int|
                    0 <= i < st.stacktrace@.len() implies (#[trigger] st.stacktrace@[i])@ == fs[i]
                by {
                }
            }
            StacktracedErrorMsg { msg: st.msg, stacktrace: st.stacktrace }
        },
        _ => {
            let msg = render_leaf_msg(error);
            StacktracedErrorMsg { msg, stacktrace: Vec::new() }
        },
    }
}

} // verus!
