//! The persisted form of the configuration: a JSON object with two optional
//! members, `log_channel` and `boost_channel`, each an unsigned 64-bit
//! integer or `null`. This module defines the format as a specification over
//! byte sequences, a verified parser, and a verified renderer.

use vstd::prelude::*;

use crate::config::ConfigData;

verus! {

/// JSON insignificant whitespace: space, tab, line feed, carriage return.
pub open spec fn is_ws(b: u8) -> bool {
    b == 32 || b == 9 || b == 10 || b == 13
}

/// An ASCII decimal digit.
pub open spec fn is_digit(b: u8) -> bool {
    48 <= b <= 57
}

/// The first index at or after `i` that does not hold whitespace.
pub open spec fn skip_ws(s: Seq<u8>, i: int) -> int
    recommends
        0 <= i <= s.len(),
    decreases s.len() - i,
{
    if i < s.len() && is_ws(s[i]) {
        skip_ws(s, i + 1)
    } else {
        i
    }
}

/// The member key `"log_channel"`, quotes included.
pub open spec fn log_key() -> Seq<u8> {
    seq![34u8, 108u8, 111u8, 103u8, 95u8, 99u8, 104u8, 97u8, 110u8, 110u8, 101u8, 108u8, 34u8]
}

/// The member key `"boost_channel"`, quotes included.
pub open spec fn boost_key() -> Seq<u8> {
    seq![
        34u8,
        98u8,
        111u8,
        111u8,
        115u8,
        116u8,
        95u8,
        99u8,
        104u8,
        97u8,
        110u8,
        110u8,
        101u8,
        108u8,
        34u8,
    ]
}

/// The literal `null`.
pub open spec fn null_lit() -> Seq<u8> {
    seq![110u8, 117u8, 108u8, 108u8]
}

/// `pat` occurs in `s` starting at index `i`.
pub open spec fn matches_at(s: Seq<u8>, i: int, pat: Seq<u8>) -> bool {
    0 <= i && i + pat.len() <= s.len() && s.subrange(i, i + pat.len()) == pat
}

/// The first index at or after `i` that does not hold a digit.
pub open spec fn digits_end(s: Seq<u8>, i: int) -> int
    recommends
        0 <= i <= s.len(),
    decreases s.len() - i,
{
    if i < s.len() && is_digit(s[i]) {
        digits_end(s, i + 1)
    } else {
        i
    }
}

proof fn lemma_digits_end_bounds(s: Seq<u8>, i: int)
    requires
        0 <= i <= s.len(),
    ensures
        i <= digits_end(s, i) <= s.len(),
    decreases s.len() - i,
{
    if i < s.len() && is_digit(s[i]) {
        lemma_digits_end_bounds(s, i + 1);
    }
}

/// The numeric value of the digit run `s[i .. j]`.
pub open spec fn digits_val(s: Seq<u8>, i: int, j: int) -> int
    recommends
        0 <= i <= j <= s.len(),
        forall|k: int| i <= k < j ==> is_digit(s[k]),
    decreases j - i,
{
    if i < j {
        digits_val(s, i, j - 1) * 10 + (s[j - 1] - 48)
    } else {
        0
    }
}

proof fn lemma_digits_val_nonneg(s: Seq<u8>, i: int, j: int)
    requires
        0 <= i <= j <= s.len(),
        forall|k: int| i <= k < j ==> is_digit(s[k]),
    ensures
        digits_val(s, i, j) >= 0,
    decreases j - i,
{
    if i < j {
        lemma_digits_val_nonneg(s, i, j - 1);
        assert(digits_val(s, i, j - 1) * 10 >= 0) by (nonlinear_arith)
            requires
                digits_val(s, i, j - 1) >= 0,
        ;
    }
}

/// A digit run's value only grows as the run extends to the right.
proof fn lemma_digits_val_mono(s: Seq<u8>, i: int, k: int, j: int)
    requires
        0 <= i <= k <= j <= s.len(),
        forall|m: int| i <= m < j ==> is_digit(s[m]),
    ensures
        digits_val(s, i, j) >= digits_val(s, i, k),
    decreases j - k,
{
    if k < j {
        lemma_digits_val_mono(s, i, k, j - 1);
        lemma_digits_val_nonneg(s, i, j - 1);
        assert(digits_val(s, i, j - 1) * 10 >= digits_val(s, i, j - 1)) by (nonlinear_arith)
            requires
                digits_val(s, i, j - 1) >= 0,
        ;
    }
}

/// Which of the two members a key names.
#[derive(Clone, Copy, Debug, PartialEq, Eq, Structural)]
pub enum FieldName {
    LogChannel,
    BoostChannel,
}

/// A member value parsed at index `i`: `null` or an unsigned 64-bit integer
/// with no leading zero. On success, the value and the index just past it.
pub open spec fn spec_value_at(s: Seq<u8>, i: int) -> Option<(Option<u64>, int)>
    recommends
        0 <= i <= s.len(),
{
    if matches_at(s, i, null_lit()) {
        Some((None, i + 4))
    } else if i < s.len() && is_digit(s[i]) {
        let j = digits_end(s, i);
        if s[i] == 48 && j != i + 1 {
            None
        } else if digits_val(s, i, j) <= u64::MAX {
            Some((Some(digits_val(s, i, j) as u64), j))
        } else {
            None
        }
    } else {
        None
    }
}

/// A member parsed at index `i`: one of the two known keys, a colon, a value.
/// On success, the field named, its value, and the index just past the value.
pub open spec fn spec_member_at(s: Seq<u8>, i: int) -> Option<(FieldName, Option<u64>, int)>
    recommends
        0 <= i <= s.len(),
{
    let is_log = matches_at(s, i, log_key());
    let is_boost = matches_at(s, i, boost_key());
    if is_log || is_boost {
        let k = if is_log {
            i + log_key().len()
        } else {
            i + boost_key().len()
        };
        let c = skip_ws(s, k);
        if c < s.len() && s[c] == 58 {
            let v = skip_ws(s, c + 1);
            match spec_value_at(s, v) {
                Some((val, j)) => Some(
                    (if is_log { FieldName::LogChannel } else { FieldName::BoostChannel }, val, j),
                ),
                None => None,
            }
        } else {
            None
        }
    } else {
        None
    }
}

/// A configuration with one member set from a parsed pair.
pub open spec fn with_member(c: ConfigData, f: FieldName, v: Option<u64>) -> ConfigData {
    match f {
        FieldName::LogChannel => ConfigData { log_channel: v, ..c },
        FieldName::BoostChannel => ConfigData { boost_channel: v, ..c },
    }
}

/// The empty configuration: both members absent.
pub open spec fn empty_config() -> ConfigData {
    ConfigData { log_channel: None, boost_channel: None }
}

/// The format of the persisted document: a JSON object whose members are
/// `log_channel` and `boost_channel`, each optional, each `null` or an
/// unsigned 64-bit integer, in either order, with no duplicate and no other
/// member, and nothing but whitespace around the object. `None` means the
/// document is malformed.
pub open spec fn spec_parse(s: Seq<u8>) -> Option<ConfigData> {
    let i = skip_ws(s, 0);
    if i < s.len() && s[i] == 123 {
        let j = skip_ws(s, i + 1);
        if j < s.len() && s[j] == 125 {
            if skip_ws(s, j + 1) == s.len() {
                Some(empty_config())
            } else {
                None
            }
        } else {
            match spec_member_at(s, j) {
                Some((f1, v1, k1)) => {
                    let j2 = skip_ws(s, k1);
                    if j2 < s.len() && s[j2] == 125 {
                        if skip_ws(s, j2 + 1) == s.len() {
                            Some(with_member(empty_config(), f1, v1))
                        } else {
                            None
                        }
                    } else if j2 < s.len() && s[j2] == 44 {
                        let j3 = skip_ws(s, j2 + 1);
                        match spec_member_at(s, j3) {
                            Some((f2, v2, k2)) => {
                                if f1 == f2 {
                                    None
                                } else {
                                    let j4 = skip_ws(s, k2);
                                    if j4 < s.len() && s[j4] == 125 && skip_ws(s, j4 + 1)
                                        == s.len() {
                                        Some(
                                            with_member(
                                                with_member(empty_config(), f1, v1),
                                                f2,
                                                v2,
                                            ),
                                        )
                                    } else {
                                        None
                                    }
                                }
                            },
                            None => None,
                        }
                    } else {
                        None
                    }
                },
                None => None,
            }
        }
    } else {
        None
    }
}

fn is_ws_byte(b: u8) -> (r: bool)
    ensures
        r == is_ws(b),
{
    b == 32 || b == 9 || b == 10 || b == 13
}

fn is_digit_byte(b: u8) -> (r: bool)
    ensures
        r == is_digit(b),
{
    48 <= b && b <= 57
}

/// Scan past whitespace, starting at `from`.
fn ws_end(s: &[u8], from: usize) -> (r: usize)
    requires
        from <= s@.len(),
    ensures
        r == skip_ws(s@, from as int),
        from <= r <= s@.len(),
{
    let mut i = from;
    while i < s.len() && is_ws_byte(s[i])
        invariant
            from <= i <= s@.len(),
            skip_ws(s@, from as int) == skip_ws(s@, i as int),
        decreases s@.len() - i,
    {
        i = i + 1;
    }
    i
}

/// Scan past decimal digits, starting at `from`.
fn digit_run_end(s: &[u8], from: usize) -> (r: usize)
    requires
        from <= s@.len(),
    ensures
        r == digits_end(s@, from as int),
        from <= r <= s@.len(),
{
    let mut i = from;
    while i < s.len() && is_digit_byte(s[i])
        invariant
            from <= i <= s@.len(),
            digits_end(s@, from as int) == digits_end(s@, i as int),
        decreases s@.len() - i,
    {
        i = i + 1;
    }
    i
}

/// Does `pat` occur in `s` at index `i`?
fn match_at(s: &[u8], i: usize, pat: &[u8]) -> (r: bool)
    requires
        i <= s@.len(),
    ensures
        r == matches_at(s@, i as int, pat@),
{
    if pat.len() > s.len() - i {
        return false;
    }
    let mut k: usize = 0;
    while k < pat.len()
        invariant
            0 <= k <= pat@.len(),
            i + pat@.len() <= s@.len(),
            s@.len() <= usize::MAX,
            forall|m: int| 0 <= m < k ==> s@[i + m] == pat@[m],
        decreases pat@.len() - k,
    {
        if s[i + k] != pat[k] {
            assert(s@.subrange(i as int, i + pat@.len())[k as int] == s@[i + k]);
            return false;
        }
        k = k + 1;
    }
    assert(s@.subrange(i as int, i + pat@.len()) =~= pat@);
    true
}

/// The value of the digit run `s[i .. j]`, or `None` if it exceeds `u64::MAX`.
fn digits_to_u64(s: &[u8], i: usize, j: usize) -> (r: Option<u64>)
    requires
        i <= j <= s@.len(),
        forall|k: int| i <= k < j ==> is_digit(s@[k]),
    ensures
        match r {
            Some(v) => digits_val(s@, i as int, j as int) == v,
            None => digits_val(s@, i as int, j as int) > u64::MAX,
        },
{
    let mut acc: u128 = 0;
    let mut k = i;
    while k < j
        invariant
            i <= k <= j <= s@.len(),
            forall|m: int| i <= m < j ==> is_digit(s@[m]),
            acc as int == digits_val(s@, i as int, k as int),
        decreases j - k,
    {
        if acc > 0xFFFF_FFFF_FFFF_FFFF {
            proof {
                lemma_digits_val_mono(s@, i as int, k as int, j as int);
            }
            return None;
        }
        let d = s[k] - 48;
        acc = acc * 10 + d as u128;
        k = k + 1;
    }
    if acc > 0xFFFF_FFFF_FFFF_FFFF {
        None
    } else {
        Some(acc as u64)
    }
}

fn log_key_vec() -> (v: Vec<u8>)
    ensures
        v@ == log_key(),
{
    let mut v: Vec<u8> = Vec::new();
    v.push(34);
    v.push(108);
    v.push(111);
    v.push(103);
    v.push(95);
    v.push(99);
    v.push(104);
    v.push(97);
    v.push(110);
    v.push(110);
    v.push(101);
    v.push(108);
    v.push(34);
    proof {
        assert(v@ =~= log_key());
    }
    v
}

fn boost_key_vec() -> (v: Vec<u8>)
    ensures
        v@ == boost_key(),
{
    let mut v: Vec<u8> = Vec::new();
    v.push(34);
    v.push(98);
    v.push(111);
    v.push(111);
    v.push(115);
    v.push(116);
    v.push(95);
    v.push(99);
    v.push(104);
    v.push(97);
    v.push(110);
    v.push(110);
    v.push(101);
    v.push(108);
    v.push(34);
    proof {
        assert(v@ =~= boost_key());
    }
    v
}

fn null_lit_vec() -> (v: Vec<u8>)
    ensures
        v@ == null_lit(),
{
    let mut v: Vec<u8> = Vec::new();
    v.push(110);
    v.push(117);
    v.push(108);
    v.push(108);
    proof {
        assert(v@ =~= null_lit());
    }
    v
}

/// Parse a member value at index `i`.
fn value_at(s: &[u8], i: usize) -> (r: Option<(Option<u64>, usize)>)
    requires
        i <= s@.len(),
    ensures
        r is Some == spec_value_at(s@, i as int) is Some,
        r matches Some(p) ==> spec_value_at(s@, i as int) == Some((p.0, p.1 as int)) && p.1
            <= s@.len(),
{
    let n = s.len();
    let nl = null_lit_vec();
    if match_at(s, i, nl.as_slice()) {
        return Some((None, i + 4));
    }
    if i < n && is_digit_byte(s[i]) {
        let j = digit_run_end(s, i);
        if s[i] == 48 && j != i + 1 {
            return None;
        }
        proof {
            lemma_digit_run(s@, i as int, j as int);
        }
        match digits_to_u64(s, i, j) {
            Some(v) => Some((Some(v), j)),
            None => None,
        }
    } else {
        None
    }
}

/// Every byte of the run `[i, digits_end(s, i))` is a digit.
proof fn lemma_digit_run(s: Seq<u8>, i: int, j: int)
    requires
        0 <= i <= s.len(),
        j == digits_end(s, i),
    ensures
        i <= j <= s.len(),
        forall|k: int| i <= k < j ==> is_digit(s[k]),
    decreases s.len() - i,
{
    lemma_digits_end_bounds(s, i);
    if i < s.len() && is_digit(s[i]) {
        lemma_digit_run(s, i + 1, j);
    }
}

/// Parse a member (key, colon, value) at index `i`.
fn member_at(s: &[u8], i: usize) -> (r: Option<(FieldName, Option<u64>, usize)>)
    requires
        i <= s@.len(),
    ensures
        r is Some == spec_member_at(s@, i as int) is Some,
        r matches Some(p) ==> spec_member_at(s@, i as int) == Some((p.0, p.1, p.2 as int)) && p.2
            <= s@.len(),
{
    let n = s.len();
    let lk = log_key_vec();
    let bk = boost_key_vec();
    let is_log = match_at(s, i, lk.as_slice());
    let is_boost = match_at(s, i, bk.as_slice());
    if !(is_log || is_boost) {
        return None;
    }
    let k = if is_log {
        i + lk.len()
    } else {
        i + bk.len()
    };
    let c = ws_end(s, k);
    if !(c < n) {
        return None;
    }
    if s[c] != 58 {
        return None;
    }
    let v = ws_end(s, c + 1);
    match value_at(s, v) {
        Some((val, j)) => Some(
            (
                if is_log {
                    FieldName::LogChannel
                } else {
                    FieldName::BoostChannel
                },
                val,
                j,
            ),
        ),
        None => None,
    }
}

/// Parse a whole persisted document. Returns the configuration it denotes,
/// or `None` if the bytes are not in the format.
pub fn parse_config(s: &[u8]) -> (r: Option<ConfigData>)
    ensures
        r == spec_parse(s@),
{
    let i = ws_end(s, 0);
    if !(i < s.len()) {
        return None;
    }
    if s[i] != 123 {
        return None;
    }
    let j = ws_end(s, i + 1);
    if j < s.len() && s[j] == 125 {
        if ws_end(s, j + 1) == s.len() {
            return Some(ConfigData { log_channel: None, boost_channel: None });
        }
        return None;
    }
    let (f1, v1, k1) = match member_at(s, j) {
        Some(p) => p,
        None => {
            return None;
        },
    };
    let j2 = ws_end(s, k1);
    if j2 < s.len() && s[j2] == 125 {
        if ws_end(s, j2 + 1) == s.len() {
            let c = apply_member(ConfigData { log_channel: None, boost_channel: None }, f1, v1);
            return Some(c);
        }
        return None;
    }
    if !(j2 < s.len()) {
        return None;
    }
    if s[j2] != 44 {
        return None;
    }
    let j3 = ws_end(s, j2 + 1);
    let (f2, v2, k2) = match member_at(s, j3) {
        Some(p) => p,
        None => {
            return None;
        },
    };
    if f1 == f2 {
        return None;
    }
    let j4 = ws_end(s, k2);
    if j4 < s.len() && s[j4] == 125 && ws_end(s, j4 + 1) == s.len() {
        let c0 = apply_member(ConfigData { log_channel: None, boost_channel: None }, f1, v1);
        let c = apply_member(c0, f2, v2);
        return Some(c);
    }
    None
}

/// Set one member of a configuration.
fn apply_member(c: ConfigData, f: FieldName, v: Option<u64>) -> (r: ConfigData)
    ensures
        r == with_member(c, f, v),
{
    match f {
        FieldName::LogChannel => ConfigData { log_channel: v, ..c },
        FieldName::BoostChannel => ConfigData { boost_channel: v, ..c },
    }
}

/// The shortest decimal numeral of `n`: no leading zero, `0` for zero.
pub open spec fn dec_digits(n: nat) -> Seq<u8>
    decreases n,
{
    if n <= 9 {
        seq![(48 + n) as u8]
    } else {
        dec_digits(n / 10) + seq![(48 + n % 10) as u8]
    }
}

/// The rendered form of one member value.
pub open spec fn value_bytes(v: Option<u64>) -> Seq<u8> {
    match v {
        None => null_lit(),
        Some(n) => dec_digits(n as nat),
    }
}

/// The persisted form of a configuration: both members, `log_channel` first,
/// without whitespace.
pub open spec fn json_of(c: ConfigData) -> Seq<u8> {
    seq![123u8] + log_key() + seq![58u8] + value_bytes(c.log_channel) + seq![44u8] + boost_key()
        + seq![58u8] + value_bytes(c.boost_channel) + seq![125u8]
}

/// Append the decimal numeral of `n`.
fn push_dec(out: &mut Vec<u8>, n: u64)
    ensures
        final(out)@ == old(out)@ + dec_digits(n as nat),
    decreases n,
{
    if n <= 9 {
        out.push(48 + n as u8);
    } else {
        push_dec(out, n / 10);
        out.push(48 + (n % 10) as u8);
    }
    proof {
        assert(out@ =~= old(out)@ + dec_digits(n as nat));
    }
}

/// Append a copy of `pat`.
fn push_bytes(out: &mut Vec<u8>, pat: &[u8])
    ensures
        final(out)@ == old(out)@ + pat@,
{
    let mut k: usize = 0;
    while k < pat.len()
        invariant
            0 <= k <= pat@.len(),
            out@ == old(out)@ + pat@.subrange(0, k as int),
        decreases pat@.len() - k,
    {
        out.push(pat[k]);
        proof {
            assert(out@ =~= old(out)@ + pat@.subrange(0, k + 1));
        }
        k = k + 1;
    }
    proof {
        assert(pat@.subrange(0, pat@.len() as int) =~= pat@);
    }
}

/// Append the rendered form of one member value.
fn push_value(out: &mut Vec<u8>, v: Option<u64>)
    ensures
        final(out)@ == old(out)@ + value_bytes(v),
{
    match v {
        None => {
            let nl = null_lit_vec();
            push_bytes(out, nl.as_slice());
        },
        Some(n) => {
            push_dec(out, n);
        },
    }
}

/// Render a configuration to its persisted form.
pub fn render_config(c: &ConfigData) -> (out: Vec<u8>)
    ensures
        out@ == json_of(*c),
{
    let mut out: Vec<u8> = Vec::new();
    out.push(123);
    let lk = log_key_vec();
    push_bytes(&mut out, lk.as_slice());
    out.push(58);
    push_value(&mut out, c.log_channel);
    out.push(44);
    let bk = boost_key_vec();
    push_bytes(&mut out, bk.as_slice());
    out.push(58);
    push_value(&mut out, c.boost_channel);
    out.push(125);
    proof {
        assert(out@ =~= json_of(*c));
    }
    out
}

/// A decimal numeral is nonempty and holds digits only.
proof fn lemma_dec_digits_are_digits(n: nat)
    ensures
        dec_digits(n).len() >= 1,
        forall|t: int| 0 <= t < dec_digits(n).len() ==> is_digit(#[trigger] dec_digits(n)[t]),
    decreases n,
{
    if n > 9 {
        lemma_dec_digits_are_digits(n / 10);
    }
}

/// A numeral has a leading zero only for zero itself, where it is the whole
/// numeral.
proof fn lemma_dec_digits_leading(n: nat)
    ensures
        n >= 1 ==> dec_digits(n)[0] != 48,
        n == 0 ==> dec_digits(n).len() == 1,
    decreases n,
{
    if n > 9 {
        lemma_dec_digits_leading(n / 10);
        lemma_dec_digits_are_digits(n / 10);
        assert(dec_digits(n)[0] == dec_digits((n / 10) as nat)[0]);
    }
}

/// A digit run bounded on the right by a non-digit (or the end) ends exactly
/// there.
proof fn lemma_digits_end_of_run(s: Seq<u8>, i: int, j: int)
    requires
        0 <= i <= j <= s.len(),
        forall|k: int| i <= k < j ==> is_digit(s[k]),
        j < s.len() ==> !is_digit(s[j]),
    ensures
        digits_end(s, i) == j,
    decreases j - i,
{
    if i < j {
        lemma_digits_end_of_run(s, i + 1, j);
    }
}

/// Reading back an embedded numeral yields the number it renders.
proof fn lemma_digits_val_of_dec(s: Seq<u8>, i: int, n: nat)
    requires
        0 <= i,
        i + dec_digits(n).len() <= s.len(),
        s.subrange(i, i + dec_digits(n).len()) == dec_digits(n),
    ensures
        digits_val(s, i, i + dec_digits(n).len()) == n,
    decreases n,
{
    let l = dec_digits(n).len() as int;
    assert forall|t: int| 0 <= t < l implies s[i + t] == #[trigger] dec_digits(n)[t] by {
        assert(s.subrange(i, i + l)[t] == s[i + t]);
        assert(s.subrange(i, i + l)[t] == dec_digits(n)[t]);
    }
    if n <= 9 {
        assert(dec_digits(n)[0] == (48 + n) as u8);
        assert(s[i] == (48 + n) as u8);
        assert(digits_val(s, i, i) == 0);
        assert(digits_val(s, i, i + 1) == digits_val(s, i, i) * 10 + (s[i] - 48));
    } else {
        let m = (n / 10) as nat;
        let lm = dec_digits(m).len() as int;
        assert(dec_digits(n) == dec_digits(m) + seq![(48 + n % 10) as u8]);
        assert(l == lm + 1);
        assert(s.subrange(i, i + lm) =~= dec_digits(m)) by {
            assert forall|t: int| 0 <= t < lm implies s.subrange(i, i + lm)[t] == dec_digits(
                m,
            )[t] by {
                assert(s.subrange(i, i + lm)[t] == s[i + t]);
                assert(s[i + t] == dec_digits(n)[t]);
                assert(dec_digits(n)[t] == (dec_digits(m) + seq![(48 + n % 10) as u8])[t]);
            }
        }
        lemma_digits_val_of_dec(s, i, m);
        assert(s[i + l - 1] == dec_digits(n)[l - 1]);
        assert(dec_digits(n)[l - 1] == (48 + n % 10) as u8);
        vstd::arithmetic::div_mod::lemma_fundamental_div_mod(n as int, 10);
        assert(digits_val(s, i, i + l) == digits_val(s, i, i + l - 1) * 10 + (s[i + l - 1] - 48));
        assert(digits_val(s, i, i + l - 1) == m);
        assert(m * 10 + (n % 10) == n);
    }
}

/// An embedded rendered value, bounded on the right by a non-digit, parses to
/// the value it renders.
proof fn lemma_value_at_embedded(s: Seq<u8>, i: int, v: Option<u64>)
    requires
        0 <= i,
        i + value_bytes(v).len() <= s.len(),
        s.subrange(i, i + value_bytes(v).len()) == value_bytes(v),
        i + value_bytes(v).len() < s.len() ==> !is_digit(s[i + value_bytes(v).len()]),
    ensures
        spec_value_at(s, i) == Some((v, i + value_bytes(v).len())),
{
    let l = value_bytes(v).len() as int;
    assert forall|t: int| 0 <= t < l implies s[i + t] == #[trigger] value_bytes(v)[t] by {
        assert(s.subrange(i, i + l)[t] == s[i + t]);
        assert(s.subrange(i, i + l)[t] == value_bytes(v)[t]);
    }
    match v {
        None => {
            assert(s.subrange(i, i + 4) =~= null_lit());
            assert(matches_at(s, i, null_lit()));
        },
        Some(n) => {
            lemma_dec_digits_are_digits(n as nat);
            lemma_dec_digits_leading(n as nat);
            assert(!matches_at(s, i, null_lit())) by {
                if matches_at(s, i, null_lit()) {
                    assert(s.subrange(i, i + 4)[0] == s[i]);
                    assert(s[i] == 110);
                    assert(is_digit(dec_digits(n as nat)[0]));
                }
            }
            assert forall|k: int| i <= k < i + l implies is_digit(s[k]) by {
                assert(s[i + (k - i)] == value_bytes(v)[k - i]);
                assert(is_digit(dec_digits(n as nat)[k - i]));
            }
            lemma_digits_end_of_run(s, i, i + l);
            lemma_digits_val_of_dec(s, i, n as nat);
            if s[i] == 48 {
                assert(dec_digits(n as nat)[0] == 48);
                assert(n as nat >= 1 ==> dec_digits(n as nat)[0] != 48);
                assert(n == 0);
                assert(l == 1);
            }
        },
    }
}

/// Rendering and reparsing recovers the configuration exactly: the persisted
/// form of any value loads back as that value.
pub proof fn lemma_render_parse_round_trip(c: ConfigData)
    ensures
        spec_parse(json_of(c)) == Some(c),
{
    let s = json_of(c);
    let lv = value_bytes(c.log_channel);
    let bv = value_bytes(c.boost_channel);
    let a2 = 14int;
    let a3 = 15int;
    let a4 = a3 + lv.len();
    let a5 = a4 + 1;
    let a6 = a5 + 15;
    let a7 = a6 + 1;
    let a8 = a7 + bv.len();
    assert(s.len() == a8 + 1);
    assert(s[0] == 123);
    assert(s.subrange(1, a2) =~= log_key());
    assert(s[a2] == 58);
    assert(s.subrange(a3, a4) =~= lv) by {
        assert(forall|t: int| 0 <= t < lv.len() ==> s.subrange(a3, a4)[t] == #[trigger] lv[t]);
    }
    assert(s[a4] == 44);
    assert(s.subrange(a5, a6) =~= boost_key()) by {
        assert(forall|t: int|
            0 <= t < 15 ==> s.subrange(a5, a6)[t] == #[trigger] boost_key()[t]);
    }
    assert(s[a6] == 58);
    assert(s.subrange(a7, a8) =~= bv) by {
        assert(forall|t: int| 0 <= t < bv.len() ==> s.subrange(a7, a8)[t] == #[trigger] bv[t]);
    }
    assert(s[a8] == 125);

    assert(skip_ws(s, 0) == 0);
    assert(s[1] == log_key()[0]) by {
        assert(s.subrange(1, a2)[0] == s[1]);
    }
    assert(s[1] == 34);
    assert(skip_ws(s, 1) == 1);
    assert(matches_at(s, 1, log_key()));
    assert(skip_ws(s, a2) == a2);
    match c.log_channel {
        None => {
            assert(lv[0] == 110);
        },
        Some(n) => {
            lemma_dec_digits_are_digits(n as nat);
        },
    }
    assert(s[a3] == lv[0]) by {
        assert(s.subrange(a3, a4)[0] == s[a3]);
    }
    assert(!is_ws(s[a3]));
    assert(skip_ws(s, a2 + 1) == a3);
    lemma_value_at_embedded(s, a3, c.log_channel);
    assert(spec_member_at(s, 1) == Some((FieldName::LogChannel, c.log_channel, a4)));

    assert(skip_ws(s, a4) == a4);
    assert(s[a5] == boost_key()[0]) by {
        assert(s.subrange(a5, a6)[0] == s[a5]);
    }
    assert(s[a5] == 34);
    assert(skip_ws(s, a4 + 1) == a5);
    assert(matches_at(s, a5, boost_key()));
    assert(!matches_at(s, a5, log_key())) by {
        if matches_at(s, a5, log_key()) {
            assert(s.subrange(a5, a5 + 13)[1] == s[a5 + 1]);
            assert(s[a5 + 1] == 108);
            assert(s.subrange(a5, a6)[1] == s[a5 + 1]);
            assert(boost_key()[1] == 98);
        }
    }
    assert(skip_ws(s, a6) == a6);
    match c.boost_channel {
        None => {
            assert(bv[0] == 110);
        },
        Some(n) => {
            lemma_dec_digits_are_digits(n as nat);
        },
    }
    assert(s[a7] == bv[0]) by {
        assert(s.subrange(a7, a8)[0] == s[a7]);
    }
    assert(!is_ws(s[a7]));
    assert(skip_ws(s, a6 + 1) == a7);
    lemma_value_at_embedded(s, a7, c.boost_channel);
    assert(spec_member_at(s, a5) == Some((FieldName::BoostChannel, c.boost_channel, a8)));

    assert(skip_ws(s, a8) == a8);
    assert(skip_ws(s, a8 + 1) == s.len());
    assert(with_member(
        with_member(empty_config(), FieldName::LogChannel, c.log_channel),
        FieldName::BoostChannel,
        c.boost_channel,
    ) == c);
}

} // verus!
