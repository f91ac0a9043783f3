//! The snapshot text codec.
//!
//! A snapshot is stored as one line of UTF-8 text in a fixed shape: an object
//! with the five fields `timestamp`, `mouse_distance`, `wheel_spins`,
//! `button_presses` and `key_presses`, in that order, each holding a
//! non-negative integer written in canonical decimal (no sign, no leading
//! zero), with no whitespace:
//!
//! `{"timestamp":T,"mouse_distance":M,"wheel_spins":W,"button_presses":B,"key_presses":K}`
//!
//! [`render_snapshot`] produces exactly this text for a record, and
//! [`parse_snapshot`] accepts a text exactly when it is the rendering of some
//! well-formed record, returning that record. Anything else — an empty file,
//! a truncated write, foreign content — is rejected, and the caller then
//! falls back to the empty record as its merge base.

use vstd::arithmetic::div_mod::lemma_fundamental_div_mod;
use vstd::prelude::*;
use vstd::string::StrSliceExecFns;
use vstd::string::StringExecFns;

use crate::types::SnapshotRecord;

verus! {

/// The decimal digit character for a value below ten.
pub open spec fn digit_char(d: int) -> char {
    if d == 0 {
        '0'
    } else if d == 1 {
        '1'
    } else if d == 2 {
        '2'
    } else if d == 3 {
        '3'
    } else if d == 4 {
        '4'
    } else if d == 5 {
        '5'
    } else if d == 6 {
        '6'
    } else if d == 7 {
        '7'
    } else if d == 8 {
        '8'
    } else {
        '9'
    }
}

/// Whether a character is a decimal digit.
pub(crate) open spec fn is_digit(c: char) -> bool {
    ||| c == '0'
    ||| c == '1'
    ||| c == '2'
    ||| c == '3'
    ||| c == '4'
    ||| c == '5'
    ||| c == '6'
    ||| c == '7'
    ||| c == '8'
    ||| c == '9'
}

/// The canonical decimal digits of a number, most significant first.
pub open spec fn spec_dec(n: nat) -> Seq<char>
    decreases n,
{
    if n < 10 {
        seq![digit_char(n as int)]
    } else {
        spec_dec(n / 10).push(digit_char((n % 10) as int))
    }
}

/// Powers of ten.
pub(crate) open spec fn pow10(k: nat) -> nat
    decreases k,
{
    if k == 0 {
        1nat
    } else {
        10 * pow10((k - 1) as nat)
    }
}

/// Canonical decimal digit sequences are non-empty, consist of digits, and
/// start with a zero exactly for the value zero; one digit covers exactly the
/// values below ten.
pub(crate) proof fn lemma_dec_basic(n: nat)
    ensures
        spec_dec(n).len() >= 1,
        forall|k: int| 0 <= k < spec_dec(n).len() ==> is_digit(#[trigger] spec_dec(n)[k]),
        (spec_dec(n)[0] == '0') <==> n == 0,
        (spec_dec(n).len() == 1) <==> n < 10,
    decreases n,
{
    if n >= 10 {
        lemma_dec_basic(n / 10);
    }
}

/// A number's canonical decimal form is shorter than any power of ten above
/// the number, and the power of its own length is above it.
proof fn lemma_dec_len(n: nat)
    ensures
        n < pow10(spec_dec(n).len() as nat),
        forall|k: nat| 1 <= k && n < pow10(k) ==> spec_dec(n).len() <= k,
    decreases n,
{
    if n < 10 {
        assert(pow10(0) == 1);
        assert(pow10(1) == 10);
        assert forall|k: nat| 1 <= k && n < pow10(k) implies spec_dec(n).len() <= k by {}
    } else {
        lemma_dec_len(n / 10);
        let l = spec_dec(n / 10).len() as nat;
        assert(spec_dec(n).len() == l + 1);
        lemma_fundamental_div_mod(n as int, 10);
        assert(n < 10 * pow10(l)) by {
            assert(n / 10 < pow10(l));
            assert(n == 10 * (n / 10) + n % 10);
            assert(10 * (n / 10) + n % 10 < 10 * pow10(l)) by (nonlinear_arith)
                requires
                    n / 10 < pow10(l),
                    0 <= n % 10 < 10,
            {}
        }
        assert(pow10(l + 1) == 10 * pow10(l));
        assert forall|k: nat| 1 <= k && n < pow10(k) implies spec_dec(n).len() <= k by {
            if k == 1 {
                assert(pow10(0) == 1);
                assert(pow10(1nat) == 10);
            } else {
                assert(pow10(k) == 10 * pow10((k - 1) as nat));
                assert(n / 10 < pow10((k - 1) as nat)) by (nonlinear_arith)
                    requires
                        n < 10 * pow10((k - 1) as nat),
                        n >= 0,
                {}
            }
        }
    }
}

/// Distinct numbers have distinct canonical decimal forms.
proof fn lemma_dec_injective(a: nat, b: nat)
    requires
        spec_dec(a) == spec_dec(b),
    ensures
        a == b,
    decreases a,
{
    lemma_dec_basic(a);
    lemma_dec_basic(b);
    if a < 10 && b < 10 {
        assert(spec_dec(a)[0] == spec_dec(b)[0]);
    } else if a >= 10 && b >= 10 {
        assert(spec_dec(a).last() == digit_char((a % 10) as int));
        assert(spec_dec(b).last() == digit_char((b % 10) as int));
        assert(a % 10 == b % 10);
        assert(spec_dec(a).drop_last() =~= spec_dec(a / 10));
        assert(spec_dec(b).drop_last() =~= spec_dec(b / 10));
        lemma_dec_injective(a / 10, b / 10);
        lemma_fundamental_div_mod(a as int, 10);
        lemma_fundamental_div_mod(b as int, 10);
    }
}

/// `v`'s canonical decimal form stands in `s` at offset `i`, ended by the end
/// of `s` or by a non-digit — the one way a decimal number can occur there.
pub(crate) open spec fn dec_at(s: Seq<char>, i: int, v: nat) -> bool {
    &&& 0 <= i
    &&& i + spec_dec(v).len() <= s.len()
    &&& s.subrange(i, i + spec_dec(v).len() as int) == spec_dec(v)
    &&& (i + spec_dec(v).len() == s.len() || !is_digit(s[i + spec_dec(v).len()]))
}

/// At one offset, at most one number's canonical decimal form can stand.
proof fn lemma_dec_at_unique(s: Seq<char>, i: int, v1: nat, v2: nat)
    requires
        dec_at(s, i, v1),
        dec_at(s, i, v2),
    ensures
        v1 == v2,
{
    lemma_dec_basic(v1);
    lemma_dec_basic(v2);
    let l1 = spec_dec(v1).len() as int;
    let l2 = spec_dec(v2).len() as int;
    if l1 < l2 {
        assert(s[i + l1] == s.subrange(i, i + l2)[l1]);
        assert(is_digit(s[i + l1]));
    } else if l2 < l1 {
        assert(s[i + l2] == s.subrange(i, i + l1)[l2]);
        assert(is_digit(s[i + l2]));
    } else {
        assert(spec_dec(v1) == spec_dec(v2));
        lemma_dec_injective(v1, v2);
    }
}

/// The decimal digit character for a digit value.
fn digit_to_str(d: u64) -> (s: &'static str)
    requires
        d < 10,
    ensures
        s@ == seq![digit_char(d as int)],
{
    proof {
        reveal_strlit("0");
        reveal_strlit("1");
        reveal_strlit("2");
        reveal_strlit("3");
        reveal_strlit("4");
        reveal_strlit("5");
        reveal_strlit("6");
        reveal_strlit("7");
        reveal_strlit("8");
        reveal_strlit("9");
    }
    if d == 0 {
        "0"
    } else if d == 1 {
        "1"
    } else if d == 2 {
        "2"
    } else if d == 3 {
        "3"
    } else if d == 4 {
        "4"
    } else if d == 5 {
        "5"
    } else if d == 6 {
        "6"
    } else if d == 7 {
        "7"
    } else if d == 8 {
        "8"
    } else {
        "9"
    }
}

/// The digit value of a character, if it is one.
fn char_to_digit(c: char) -> (r: Option<u64>)
    ensures
        match r {
            Some(d) => d < 10 && c == digit_char(d as int),
            None => !is_digit(c),
        },
{
    if c == '0' {
        Some(0)
    } else if c == '1' {
        Some(1)
    } else if c == '2' {
        Some(2)
    } else if c == '3' {
        Some(3)
    } else if c == '4' {
        Some(4)
    } else if c == '5' {
        Some(5)
    } else if c == '6' {
        Some(6)
    } else if c == '7' {
        Some(7)
    } else if c == '8' {
        Some(8)
    } else if c == '9' {
        Some(9)
    } else {
        None
    }
}

/// Appends the canonical decimal form of `n` to `out`.
pub(crate) fn push_dec(n: u64, out: &mut String)
    ensures
        final(out)@ == old(out)@ + spec_dec(n as nat),
    decreases n,
{
    if n < 10 {
        out.append(digit_to_str(n));
        assert(out@ =~= old(out)@ + spec_dec(n as nat));
    } else {
        push_dec(n / 10, out);
        out.append(digit_to_str(n % 10));
        assert(out@ =~= old(out)@ + spec_dec(n as nat));
    }
}

/// The literal that opens the text and introduces the timestamp field.
pub open spec fn lit_timestamp() -> Seq<char> {
    "{\"timestamp\":"@
}

/// The literal that introduces the pointer-distance field.
pub open spec fn lit_mouse_distance() -> Seq<char> {
    ",\"mouse_distance\":"@
}

/// The literal that introduces the wheel-distance field.
pub open spec fn lit_wheel_spins() -> Seq<char> {
    ",\"wheel_spins\":"@
}

/// The literal that introduces the button-press field.
pub open spec fn lit_button_presses() -> Seq<char> {
    ",\"button_presses\":"@
}

/// The literal that introduces the key-press field.
pub open spec fn lit_key_presses() -> Seq<char> {
    ",\"key_presses\":"@
}

/// The literal that closes the text.
pub open spec fn lit_close() -> Seq<char> {
    "}"@
}

/// The field of a record at a position of the stable field order.
pub open spec fn field_of(r: SnapshotRecord, k: int) -> int {
    if k == 0 {
        r.timestamp as int
    } else if k == 1 {
        r.mouse_distance as int
    } else if k == 2 {
        r.wheel_spins as int
    } else if k == 3 {
        r.button_presses as int
    } else {
        r.key_presses as int
    }
}

/// The literal that introduces the field at a position of the stable field
/// order; past the last field, the closing literal.
pub open spec fn lit_of(k: int) -> Seq<char> {
    if k == 0 {
        lit_timestamp()
    } else if k == 1 {
        lit_mouse_distance()
    } else if k == 2 {
        lit_wheel_spins()
    } else if k == 3 {
        lit_button_presses()
    } else if k == 4 {
        lit_key_presses()
    } else {
        lit_close()
    }
}

/// The text from the field at position `k` of the stable field order on: each
/// remaining field's literal and decimal value, then the closing brace.
pub open spec fn render_tail(r: SnapshotRecord, k: int) -> Seq<char>
    decreases 5 - k,
{
    if k >= 5 {
        lit_close()
    } else {
        lit_of(k) + spec_dec(field_of(r, k) as nat) + render_tail(r, k + 1)
    }
}

/// The snapshot text of a record: the five fields in the stable order, each
/// as its literal and its canonical decimal value, wrapped in braces.
pub open spec fn spec_render(r: SnapshotRecord) -> Seq<char> {
    render_tail(r, 0)
}

/// Shapes of the six literals: their lengths, and that each one past the
/// opening starts with a character no decimal can contain.
proof fn lemma_lit_shape()
    ensures
        lit_timestamp().len() == 13,
        lit_mouse_distance().len() == 18,
        lit_wheel_spins().len() == 15,
        lit_button_presses().len() == 18,
        lit_key_presses().len() == 15,
        lit_close().len() == 1,
        lit_mouse_distance()[0] == ',',
        lit_wheel_spins()[0] == ',',
        lit_button_presses()[0] == ',',
        lit_key_presses()[0] == ',',
        lit_close()[0] == '}',
{
    reveal_strlit("{\"timestamp\":");
    reveal_strlit(",\"mouse_distance\":");
    reveal_strlit(",\"wheel_spins\":");
    reveal_strlit(",\"button_presses\":");
    reveal_strlit(",\"key_presses\":");
    reveal_strlit("}");
}

/// Past the opening literal, every remaining tail of the format is non-empty
/// and starts with a non-digit: decimal runs inside a snapshot text end
/// unambiguously.
proof fn lemma_render_tail_starts_nondigit(r: SnapshotRecord, k: int)
    requires
        1 <= k <= 5,
    ensures
        render_tail(r, k).len() >= 1,
        !is_digit(render_tail(r, k)[0]),
{
    lemma_lit_shape();
    if k < 5 {
        assert(render_tail(r, k)[0] == lit_of(k)[0]);
    }
}

/// Powers of ten are positive.
proof fn lemma_pow10_pos(k: nat)
    ensures
        pow10(k) >= 1,
    decreases k,
{
    if k > 0 {
        lemma_pow10_pos((k - 1) as nat);
    }
}

/// Powers of ten grow with the exponent.
proof fn lemma_pow10_mono(a: nat, b: nat)
    requires
        a <= b,
    ensures
        pow10(a) <= pow10(b),
    decreases b,
{
    if a < b {
        lemma_pow10_mono(a, (b - 1) as nat);
        lemma_pow10_pos((b - 1) as nat);
    }
}

/// If a piece of `s` reads `a + b`, then `a` and `b` each stand at their own
/// place in `s`.
proof fn lemma_split_at(s: Seq<char>, i: int, a: Seq<char>, b: Seq<char>)
    requires
        0 <= i,
        i + a.len() + b.len() <= s.len(),
        s.subrange(i, i + a.len() + b.len()) == a + b,
    ensures
        s.subrange(i, i + a.len() as int) == a,
        s.subrange(i + a.len(), i + a.len() + b.len()) == b,
{
    let e = i + a.len() + b.len();
    assert(s.subrange(i, i + a.len() as int) =~= a) by {
        assert forall|t: int| 0 <= t < a.len() implies s.subrange(i, i + a.len() as int)[t]
            == a[t] by {
            assert(s.subrange(i, e)[t] == s[i + t]);
            assert((a + b)[t] == a[t]);
            assert(s.subrange(i, i + a.len() as int)[t] == s[i + t]);
        }
    }
    assert(s.subrange(i + a.len(), e) =~= b) by {
        assert forall|t: int| 0 <= t < b.len() implies s.subrange(i + a.len(), e)[t] == b[t] by {
            assert(s.subrange(i, e)[a.len() + t] == s[i + (a.len() + t)]);
            assert((a + b)[a.len() + t] == b[t]);
            assert(s.subrange(i + a.len(), e)[t] == s[i + a.len() + t]);
        }
    }
}

/// Adjacent pieces of `s` joined give the enclosing piece of `s`.
proof fn lemma_subrange_join(s: Seq<char>, a: int, b: int, c: int)
    requires
        0 <= a <= b <= c <= s.len(),
    ensures
        s.subrange(a, c) == s.subrange(a, b) + s.subrange(b, c),
{
    assert(s.subrange(a, c) =~= s.subrange(a, b) + s.subrange(b, c));
}

/// Whether `pat` stands in `s` at offset `i`.
fn match_lit(s: &str, i: usize, pat: &str) -> (r: bool)
    requires
        i as int <= s@.len(),
    ensures
        r <==> (i + pat@.len() <= s@.len() && s@.subrange(
            i as int,
            i as int + pat@.len() as int,
        ) == pat@),
{
    let sl = s.unicode_len();
    let pl = pat.unicode_len();
    if pl > sl - i {
        return false;
    }
    let mut j: usize = 0;
    while j < pl
        invariant
            0 <= j <= pl,
            i + pl <= sl,
            sl == s@.len(),
            pl == pat@.len(),
            forall|t: int| 0 <= t < j ==> s@[i + t] == pat@[t],
        decreases pl - j,
    {
        if s.get_char(i + j) != pat.get_char(j) {
            proof {
                if s@.subrange(i as int, i as int + pat@.len() as int) == pat@ {
                    assert(s@.subrange(i as int, i as int + pat@.len() as int)[j as int] == s@[i
                        as int + j as int]);
                    assert(false);
                }
            }
            return false;
        }
        j += 1;
    }
    proof {
        assert(s@.subrange(i as int, i as int + pat@.len() as int) =~= pat@) by {
            assert forall|t: int| 0 <= t < pat@.len() implies s@.subrange(
                i as int,
                i as int + pat@.len() as int,
            )[t] == pat@[t] by {
                assert(s@.subrange(i as int, i as int + pat@.len() as int)[t] == s@[i as int + t]);
            }
        }
    }
    true
}

/// Reads the one number whose canonical decimal form can stand at offset `i`,
/// if any number's does and its value is within the machine integer range.
fn parse_number(s: &str, i: usize) -> (r: Option<(u64, usize)>)
    requires
        i as int <= s@.len(),
    ensures
        match r {
            Some((v, j)) => {
                &&& v as int <= i64::MAX as int
                &&& i < j <= s@.len()
                &&& j as int == i as int + spec_dec(v as nat).len()
                &&& dec_at(s@, i as int, v as nat)
            },
            None => forall|v: nat| v <= i64::MAX as int ==> !dec_at(s@, i as int, v),
        },
{
    let sl = s.unicode_len();
    if i >= sl {
        proof {
            assert forall|v: nat| v <= i64::MAX as int implies !dec_at(s@, i as int, v) by {
                lemma_dec_basic(v);
            }
        }
        return None;
    }
    let c0 = s.get_char(i);
    let d0 = match char_to_digit(c0) {
        None => {
            proof {
                assert forall|v: nat| v <= i64::MAX as int implies !dec_at(s@, i as int, v) by {
                    lemma_dec_basic(v);
                    if dec_at(s@, i as int, v) {
                        assert(s@.subrange(i as int, i as int + spec_dec(v).len() as int)[0] == s@[
                            i as int]);
                        assert(is_digit(c0));
                    }
                }
            }
            return None;
        },
        Some(d) => d,
    };
    if d0 == 0 {
        if i + 1 < sl {
            let c1 = s.get_char(i + 1);
            if char_to_digit(c1).is_some() {
                proof {
                    assert forall|v: nat| v <= i64::MAX as int implies !dec_at(s@, i as int, v) by {
                        lemma_dec_basic(v);
                        if dec_at(s@, i as int, v) {
                            assert(s@.subrange(i as int, i as int + spec_dec(v).len() as int)[0]
                                == s@[i as int]);
                            assert(spec_dec(v)[0] == '0');
                            assert(v == 0);
                            assert(spec_dec(v).len() == 1);
                            assert(is_digit(s@[i as int + 1]));
                        }
                    }
                }
                return None;
            }
        }
        proof {
            assert(spec_dec(0nat) =~= seq!['0']);
            assert(s@.subrange(i as int, i as int + 1) =~= spec_dec(0nat));
            assert(dec_at(s@, i as int, 0nat));
        }
        return Some((0u64, i + 1));
    }
    let mut acc: u64 = d0;
    let mut j: usize = i + 1;
    proof {
        assert(s@.subrange(i as int, j as int) =~= spec_dec(acc as nat));
    }
    while j < sl
        invariant
            i < j <= sl,
            sl == s@.len(),
            1 <= acc,
            j - i <= 19,
            s@.subrange(i as int, j as int) == spec_dec(acc as nat),
            spec_dec(acc as nat).len() == j - i,
        ensures
            i < j <= sl,
            sl == s@.len(),
            j - i <= 19,
            s@.subrange(i as int, j as int) == spec_dec(acc as nat),
            spec_dec(acc as nat).len() == j - i,
            j == sl || !is_digit(s@[j as int]),
        decreases sl - j,
    {
        let c = s.get_char(j);
        match char_to_digit(c) {
            None => {
                break ;
            },
            Some(d) => {
                if j - i == 19 {
                    proof {
                        lemma_dec_basic(acc as nat);
                        assert forall|v: nat| v <= i64::MAX as int implies !dec_at(
                            s@,
                            i as int,
                            v,
                        ) by {
                            if dec_at(s@, i as int, v) {
                                lemma_dec_basic(v);
                                lemma_dec_len(v);
                                assert(pow10(19) == 10_000_000_000_000_000_000) by {
                                    reveal_with_fuel(pow10, 20);
                                }
                                assert(spec_dec(v).len() <= 19);
                                let p = i as int + spec_dec(v).len();
                                assert(i as int + spec_dec(v).len() == s@.len() || !is_digit(
                                    s@[p],
                                ));
                                assert(p <= j);
                                if p < j {
                                    assert(s@.subrange(i as int, j as int)[p - i] == s@[p]);
                                    assert(is_digit(spec_dec(acc as nat)[p - i]));
                                } else {
                                    assert(is_digit(c));
                                }
                                assert(false);
                            }
                        }
                    }
                    return None;
                }
                proof {
                    lemma_dec_len(acc as nat);
                    lemma_pow10_mono((j - i) as nat, 18nat);
                    assert(pow10(18) == 1_000_000_000_000_000_000) by {
                        reveal_with_fuel(pow10, 19);
                    }
                    assert(acc < 1_000_000_000_000_000_000);
                }
                let ghost acc0: u64 = acc;
                acc = acc * 10 + d;
                proof {
                    assert((10 * (acc0 as int) + d as int) / 10 == acc0 as int && (10 * (acc0
                        as int) + d as int) % 10 == d as int) by (nonlinear_arith)
                        requires
                            0 <= d < 10,
                            0 <= acc0,
                    {}
                    assert(acc as nat / 10 == acc0 as nat && acc as nat % 10 == d as nat);
                    assert(spec_dec(acc as nat) == spec_dec(acc0 as nat).push(digit_char(
                        d as int,
                    )));
                    assert(s@.subrange(i as int, j as int + 1) =~= spec_dec(acc as nat)) by {
                        assert forall|t: int|
                            0 <= t < spec_dec(acc as nat).len() implies s@.subrange(
                            i as int,
                            j as int + 1,
                        )[t] == spec_dec(acc as nat)[t] by {
                            assert(s@.subrange(i as int, j as int + 1)[t] == s@[i as int + t]);
                            if t < j - i {
                                assert(s@.subrange(i as int, j as int)[t] == s@[i as int + t]);
                            }
                        }
                    }
                }
                j += 1;
            },
        }
    }
    if acc > 9_223_372_036_854_775_807u64 {
        proof {
            assert(dec_at(s@, i as int, acc as nat));
            assert forall|v: nat| v <= i64::MAX as int implies !dec_at(s@, i as int, v) by {
                if dec_at(s@, i as int, v) {
                    lemma_dec_at_unique(s@, i as int, v, acc as nat);
                }
            }
        }
        return None;
    }
    proof {
        assert(dec_at(s@, i as int, acc as nat));
    }
    Some((acc, j))
}

/// Renders a record as its snapshot text.
pub fn render_snapshot(r: &SnapshotRecord) -> (out: String)
    requires
        r.wf(),
    ensures
        out@ == spec_render(*r),
{
    let mut out = String::new();
    out.append("{\"timestamp\":");
    push_dec(r.timestamp as u64, &mut out);
    out.append(",\"mouse_distance\":");
    push_dec(r.mouse_distance as u64, &mut out);
    out.append(",\"wheel_spins\":");
    push_dec(r.wheel_spins as u64, &mut out);
    out.append(",\"button_presses\":");
    push_dec(r.button_presses as u64, &mut out);
    out.append(",\"key_presses\":");
    push_dec(r.key_presses as u64, &mut out);
    out.append("}");
    proof {
        reveal_with_fuel(render_tail, 7);
        assert(out@ =~= spec_render(*r));
    }
    out
}

/// Records whose texts agree from one field position on agree on every field
/// from that position on.
proof fn lemma_render_tail_injective(a: SnapshotRecord, b: SnapshotRecord, k: int)
    requires
        0 <= k <= 5,
        a.wf(),
        b.wf(),
        render_tail(a, k) == render_tail(b, k),
    ensures
        forall|j: int| k <= j < 5 ==> #[trigger] field_of(a, j) == field_of(b, j),
    decreases 5 - k,
{
    if k < 5 {
        let s = render_tail(a, k);
        let lit = lit_of(k);
        let fa = field_of(a, k) as nat;
        let fb = field_of(b, k) as nat;
        let ta = render_tail(a, k + 1);
        let tb = render_tail(b, k + 1);
        assert(s == lit + spec_dec(fa) + ta);
        assert(s == lit + spec_dec(fb) + tb);
        assert(s.subrange(0, s.len() as int) =~= s);
        lemma_split_at(s, 0, lit + spec_dec(fa), ta);
        lemma_split_at(s, 0, lit, spec_dec(fa));
        lemma_split_at(s, 0, lit + spec_dec(fb), tb);
        lemma_split_at(s, 0, lit, spec_dec(fb));
        lemma_render_tail_starts_nondigit(a, k + 1);
        lemma_render_tail_starts_nondigit(b, k + 1);
        assert(s[lit.len() as int + spec_dec(fa).len()] == s.subrange(
            lit.len() as int + spec_dec(fa).len(),
            lit.len() as int + spec_dec(fa).len() + ta.len(),
        )[0]);
        assert(s[lit.len() as int + spec_dec(fb).len()] == s.subrange(
            lit.len() as int + spec_dec(fb).len(),
            lit.len() as int + spec_dec(fb).len() + tb.len(),
        )[0]);
        assert(dec_at(s, lit.len() as int, fa));
        assert(dec_at(s, lit.len() as int, fb));
        lemma_dec_at_unique(s, lit.len() as int, fa, fb);
        assert(field_of(a, k) == field_of(b, k));
        assert(ta == tb);
        lemma_render_tail_injective(a, b, k + 1);
    }
}

/// Two well-formed records with the same snapshot text are the same record:
/// the text determines the record it was rendered from.
pub proof fn lemma_render_injective(a: SnapshotRecord, b: SnapshotRecord)
    requires
        a.wf(),
        b.wf(),
        spec_render(a) == spec_render(b),
    ensures
        a == b,
{
    lemma_render_tail_injective(a, b, 0);
    assert(field_of(a, 0) == field_of(b, 0));
    assert(field_of(a, 1) == field_of(b, 1));
    assert(field_of(a, 2) == field_of(b, 2));
    assert(field_of(a, 3) == field_of(b, 3));
    assert(field_of(a, 4) == field_of(b, 4));
}

/// A record agrees with the first `k` values read so far.
pub(crate) open spec fn agrees(r: SnapshotRecord, vals: Seq<i64>, k: int) -> bool {
    forall|j: int| 0 <= j < k ==> #[trigger] field_of(r, j) == vals[j]
}

/// The literal that introduces the field at a position of the stable field
/// order; past the last field, the closing literal.
fn lit_str(k: usize) -> (p: &'static str)
    requires
        k <= 5,
    ensures
        p@ == lit_of(k as int),
{
    if k == 0 {
        "{\"timestamp\":"
    } else if k == 1 {
        ",\"mouse_distance\":"
    } else if k == 2 {
        ",\"wheel_spins\":"
    } else if k == 3 {
        ",\"button_presses\":"
    } else if k == 4 {
        ",\"key_presses\":"
    } else {
        "}"
    }
}

/// Parses a snapshot text.
///
/// Succeeds exactly when the text is the rendering of some well-formed
/// record, and then returns that record; on anything else it reports that no
/// record matches, and the caller falls back to the empty record.
pub fn parse_snapshot(s: &str) -> (r: Option<SnapshotRecord>)
    ensures
        match r {
            Some(rec) => rec.wf() && s@ == spec_render(rec),
            None => forall|rec: SnapshotRecord| rec.wf() ==> s@ != spec_render(rec),
        },
{
    let sl = s.unicode_len();
    let mut i: usize = 0;
    let mut vals: Vec<i64> = Vec::new();
    let mut k: usize = 0;
    proof {
        assert(s@.subrange(0, sl as int) =~= s@);
        assert(s@.subrange(0, 0) =~= Seq::<char>::empty());
        assert forall|rec: SnapshotRecord| agrees(rec, vals@, 0) implies #[trigger] spec_render(
            rec,
        ) == s@.subrange(0, 0) + render_tail(rec, 0) by {
            assert(s@.subrange(0, 0) + render_tail(rec, 0) =~= render_tail(rec, 0));
        }
    }
    while k < 5
        invariant
            k <= 5,
            vals@.len() == k,
            i <= sl,
            sl == s@.len(),
            forall|j: int| 0 <= j < k ==> 0 <= #[trigger] vals@[j] <= i64::MAX,
            forall|rec: SnapshotRecord|
                rec.wf() && s@ == #[trigger] spec_render(rec) ==> agrees(rec, vals@, k as int)
                    && s@.subrange(i as int, sl as int) == render_tail(rec, k as int),
            forall|rec: SnapshotRecord|
                agrees(rec, vals@, k as int) ==> #[trigger] spec_render(rec) == s@.subrange(
                    0,
                    i as int,
                ) + render_tail(rec, k as int),
        decreases 5 - k,
    {
        let ghost i0 = i as int;
        let ghost vals0 = vals@;
        let p = lit_str(k);
        let pl = p.unicode_len();
        if !match_lit(s, i, p) {
            proof {
                assert forall|rec: SnapshotRecord| rec.wf() implies s@ != spec_render(rec) by {
                    if s@ == spec_render(rec) {
                        let fv = field_of(rec, k as int) as nat;
                        let lit = lit_of(k as int);
                        let dec = spec_dec(fv);
                        let tail = render_tail(rec, k as int + 1);
                        assert(render_tail(rec, k as int) == lit + dec + tail);
                        assert(s@.subrange(i0, sl as int) == (lit + dec) + tail);
                        lemma_split_at(s@, i0, lit + dec, tail);
                        lemma_split_at(s@, i0, lit, dec);
                        assert(s@.subrange(i0, i0 + pl as int) == p@);
                        assert(false);
                    }
                }
            }
            return None;
        }
        i = i + pl;
        match parse_number(s, i) {
            None => {
                proof {
                    assert forall|rec: SnapshotRecord| rec.wf() implies s@ != spec_render(rec) by {
                        if s@ == spec_render(rec) {
                            let fv = field_of(rec, k as int) as nat;
                            let lit = lit_of(k as int);
                            let dec = spec_dec(fv);
                            let tail = render_tail(rec, k as int + 1);
                            assert(render_tail(rec, k as int) == lit + dec + tail);
                            assert(s@.subrange(i0, sl as int) == (lit + dec) + tail);
                            lemma_split_at(s@, i0, lit + dec, tail);
                            lemma_split_at(s@, i0, lit, dec);
                            lemma_render_tail_starts_nondigit(rec, k as int + 1);
                            assert(s@[i0 + lit.len() + dec.len()] == s@.subrange(
                                i0 + lit.len() + dec.len(),
                                i0 + lit.len() + dec.len() + tail.len(),
                            )[0]);
                            assert(dec_at(s@, i as int, fv));
                            assert(false);
                        }
                    }
                }
                return None;
            },
            Some((v, j)) => {
                proof {
                    assert forall|rec: SnapshotRecord|
                        rec.wf() && s@ == #[trigger] spec_render(rec) implies agrees(
                        rec,
                        vals0.push(v as i64),
                        k as int + 1,
                    ) && s@.subrange(j as int, sl as int) == render_tail(rec, k as int + 1) by {
                        let fv = field_of(rec, k as int) as nat;
                        let lit = lit_of(k as int);
                        let dec = spec_dec(fv);
                        let tail = render_tail(rec, k as int + 1);
                        assert(render_tail(rec, k as int) == lit + dec + tail);
                        assert(s@.subrange(i0, sl as int) == (lit + dec) + tail);
                        lemma_split_at(s@, i0, lit + dec, tail);
                        lemma_split_at(s@, i0, lit, dec);
                        lemma_render_tail_starts_nondigit(rec, k as int + 1);
                        assert(s@[i0 + lit.len() + dec.len()] == s@.subrange(
                            i0 + lit.len() + dec.len(),
                            i0 + lit.len() + dec.len() + tail.len(),
                        )[0]);
                        assert(dec_at(s@, i as int, fv));
                        lemma_dec_at_unique(s@, i as int, fv, v as nat);
                        assert(field_of(rec, k as int) == v as i64);
                        assert forall|jj: int| 0 <= jj < k as int + 1 implies #[trigger] field_of(
                            rec,
                            jj,
                        ) == vals0.push(v as i64)[jj] by {
                            if jj < k as int {
                                assert(field_of(rec, jj) == vals0[jj]);
                            }
                        }
                        assert(s@.subrange(j as int, sl as int) == tail);
                    }
                    assert forall|rec: SnapshotRecord|
                        agrees(rec, vals0.push(v as i64), k as int + 1) implies #[trigger] spec_render(
                        rec,
                    ) == s@.subrange(0, j as int) + render_tail(rec, k as int + 1) by {
                        assert(field_of(rec, k as int) == vals0.push(v as i64)[k as int]);
                        assert forall|jj: int| 0 <= jj < k as int implies #[trigger] field_of(
                            rec,
                            jj,
                        ) == vals0[jj] by {
                            assert(field_of(rec, jj) == vals0.push(v as i64)[jj]);
                        }
                        assert(agrees(rec, vals0, k as int));
                        assert(spec_render(rec) == s@.subrange(0, i0) + render_tail(
                            rec,
                            k as int,
                        ));
                        let fv = field_of(rec, k as int) as nat;
                        let lit = lit_of(k as int);
                        let dec = spec_dec(fv);
                        let tail = render_tail(rec, k as int + 1);
                        assert(render_tail(rec, k as int) == lit + dec + tail);
                        assert(fv == v as nat);
                        assert(s@.subrange(i0, i as int) == lit);
                        assert(s@.subrange(i as int, j as int) == dec);
                        lemma_subrange_join(s@, 0, i0, i as int);
                        lemma_subrange_join(s@, 0, i as int, j as int);
                        assert(s@.subrange(0, j as int) == (s@.subrange(0, i0) + lit) + dec);
                        assert(s@.subrange(0, i0) + (lit + dec + tail) =~= ((s@.subrange(0, i0)
                            + lit) + dec) + tail);
                    }
                }
                vals.push(v as i64);
                i = j;
            },
        }
        k = k + 1;
    }
    let p = lit_str(5);
    let pl = p.unicode_len();
    if !match_lit(s, i, p) {
        proof {
            assert forall|rec: SnapshotRecord| rec.wf() implies s@ != spec_render(rec) by {
                if s@ == spec_render(rec) {
                    assert(render_tail(rec, 5) == lit_close());
                    assert(s@.subrange(i as int, sl as int) == p@);
                    lemma_lit_shape();
                    assert(false);
                }
            }
        }
        return None;
    }
    if i + pl != sl {
        proof {
            assert forall|rec: SnapshotRecord| rec.wf() implies s@ != spec_render(rec) by {
                if s@ == spec_render(rec) {
                    assert(render_tail(rec, 5) == lit_close());
                    assert(s@.subrange(i as int, sl as int) == render_tail(rec, 5));
                    lemma_lit_shape();
                    assert(sl - i == 1);
                    assert(false);
                }
            }
        }
        return None;
    }
    let rec = SnapshotRecord {
        timestamp: vals[0],
        mouse_distance: vals[1],
        wheel_spins: vals[2],
        button_presses: vals[3],
        key_presses: vals[4],
    };
    proof {
        assert(field_of(rec, 0) == vals@[0]);
        assert(field_of(rec, 1) == vals@[1]);
        assert(field_of(rec, 2) == vals@[2]);
        assert(field_of(rec, 3) == vals@[3]);
        assert(field_of(rec, 4) == vals@[4]);
        assert forall|jj: int| 0 <= jj < 5 implies #[trigger] field_of(rec, jj) == vals@[jj] by {}
        assert(agrees(rec, vals@, 5));
        assert(spec_render(rec) == s@.subrange(0, i as int) + render_tail(rec, 5));
        assert(render_tail(rec, 5) == lit_close());
        assert(s@.subrange(i as int, i as int + pl as int) == p@);
        assert(i as int + pl as int == sl as int);
        lemma_subrange_join(s@, 0, i as int, sl as int);
        assert(s@.subrange(0, sl as int) =~= s@);
        assert(s@ == spec_render(rec));
    }
    Some(rec)
}

} // verus!
