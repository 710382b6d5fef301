//! The JSON codec of the backing file: the exact character sequence the
//! store writes for a collection, a parser for that format, and the proof
//! that parsing inverts writing.
//!
//! The persisted format is a JSON array of asset objects in field order
//! `id`, `name`, `category`, `vulnerabilities`, `created_at`. The reader
//! accepts insignificant whitespace between tokens, as JSON does; the
//! store itself writes none. String fields carry plain characters
//! (printable ASCII without quote or backslash), so no escape sequences
//! arise; numeric fields have at most nineteen digits and no leading
//! zero.

use vstd::prelude::*;
use vstd::string::{StrSliceExecFns, StringExecFns};
use crate::model::{plain_char, plain_seq, views_of, wf_assets, Asset, AssetV, Error};

verus! {

// ---------------------------------------------------------------------
// Decimal numbers
// ---------------------------------------------------------------------

/// An ASCII decimal digit.
pub open spec fn is_digit(c: char) -> bool {
    48 <= c as u32 <= 57
}

/// The value of one decimal digit.
pub open spec fn digit_val(c: char) -> nat {
    (c as u32 - 48) as nat
}

/// The digit character for a value below ten.
pub open spec fn digit_char(d: nat) -> char {
    if d == 0 { '0' }
    else if d == 1 { '1' }
    else if d == 2 { '2' }
    else if d == 3 { '3' }
    else if d == 4 { '4' }
    else if d == 5 { '5' }
    else if d == 6 { '6' }
    else if d == 7 { '7' }
    else if d == 8 { '8' }
    else { '9' }
}

/// The decimal rendering of `n`, most significant digit first, with no
/// leading zeros.
pub open spec fn dec_of(n: nat) -> Seq<char>
    decreases n,
{
    if n < 10 {
        seq![digit_char(n)]
    } else {
        dec_of(n / 10) + seq![digit_char(n % 10)]
    }
}

/// The value of a sequence of digit characters, most significant first.
pub open spec fn digits_val(s: Seq<char>) -> nat
    decreases s.len(),
{
    if s.len() == 0 {
        0
    } else {
        digits_val(s.drop_last()) * 10 + digit_val(s.last())
    }
}

/// Powers of ten.
pub open spec fn pow10(k: nat) -> nat
    decreases k,
{
    if k == 0 {
        1
    } else {
        10 * pow10((k - 1) as nat)
    }
}

// ---------------------------------------------------------------------
// Parsing, at the level of character sequences
// ---------------------------------------------------------------------

/// The first position at or after `i` that does not hold a digit (or the
/// end of the sequence).
pub open spec fn digit_run_end(s: Seq<char>, i: int) -> int
    decreases s.len() - i,
{
    if i < 0 || i >= s.len() {
        i
    } else if !is_digit(s[i]) {
        i
    } else {
        digit_run_end(s, i + 1)
    }
}

/// The first position at or after `i` that does not hold a plain character
/// (or the end of the sequence).
pub open spec fn plain_run_end(s: Seq<char>, i: int) -> int
    decreases s.len() - i,
{
    if i < 0 || i >= s.len() {
        i
    } else if !plain_char(s[i]) {
        i
    } else {
        plain_run_end(s, i + 1)
    }
}

/// Insignificant whitespace between tokens: space, tab, line feed,
/// carriage return.
pub open spec fn is_ws(c: char) -> bool {
    ||| c as u32 == 0x20
    ||| c as u32 == 0x09
    ||| c as u32 == 0x0a
    ||| c as u32 == 0x0d
}

/// The first position at or after `i` that does not hold whitespace (or
/// the end of the sequence).
pub open spec fn ws_end(s: Seq<char>, i: int) -> int
    decreases s.len() - i,
{
    if i < 0 || i >= s.len() {
        i
    } else if !is_ws(s[i]) {
        i
    } else {
        ws_end(s, i + 1)
    }
}

/// Parse a number at position `i`: a run of one to nineteen digits, with
/// no leading zero. Yields the value and the position after the run.
pub open spec fn parse_num_at(s: Seq<char>, i: int) -> Option<(u64, int)> {
    let j = digit_run_end(s, i);
    if j == i || j - i > 19 || (j - i > 1 && s[i] as u32 == 48) {
        None
    } else {
        Some((digits_val(s.subrange(i, j)) as u64, j))
    }
}

/// Parse a quoted string of plain characters at position `i`. Yields the
/// content, without the quotes, and the position after the closing quote.
pub open spec fn parse_string_at(s: Seq<char>, i: int) -> Option<(Seq<char>, int)> {
    if 0 <= i < s.len() && s[i] == '"' {
        let j = plain_run_end(s, i + 1);
        if j < s.len() && s[j] == '"' {
            Some((s.subrange(i + 1, j), j + 1))
        } else {
            None
        }
    } else {
        None
    }
}

/// Match the fixed character sequence `lit` at position `i`. Yields the
/// position after it.
pub open spec fn parse_lit_at(s: Seq<char>, i: int, lit: Seq<char>) -> Option<int> {
    if 0 <= i && i + lit.len() <= s.len() && s.subrange(i, i + lit.len() as int) == lit {
        Some(i + lit.len() as int)
    } else {
        None
    }
}

/// The key token of `id`.
pub open spec fn key_id() -> Seq<char> {
    seq!['"', 'i', 'd', '"']
}

/// The key token of `name`.
pub open spec fn key_name() -> Seq<char> {
    seq!['"', 'n', 'a', 'm', 'e', '"']
}

/// The key token of `category`.
pub open spec fn key_category() -> Seq<char> {
    seq!['"', 'c', 'a', 't', 'e', 'g', 'o', 'r', 'y', '"']
}

/// The key token of `vulnerabilities`.
pub open spec fn key_vulnerabilities() -> Seq<char> {
    seq!['"', 'v', 'u', 'l', 'n', 'e', 'r', 'a', 'b', 'i', 'l', 'i', 't', 'i', 'e', 's', '"']
}

/// The key token of `created_at`.
pub open spec fn key_created_at() -> Seq<char> {
    seq!['"', 'c', 'r', 'e', 'a', 't', 'e', 'd', '_', 'a', 't', '"']
}

/// Skip whitespace, then match the fixed token `lit`.
pub open spec fn ws_lit_at(s: Seq<char>, i: int, lit: Seq<char>) -> Option<int> {
    parse_lit_at(s, ws_end(s, i), lit)
}

/// Skip whitespace, then parse a number token.
pub open spec fn ws_num_at(s: Seq<char>, i: int) -> Option<(u64, int)> {
    parse_num_at(s, ws_end(s, i))
}

/// Skip whitespace, then parse a string token.
pub open spec fn ws_string_at(s: Seq<char>, i: int) -> Option<(Seq<char>, int)> {
    parse_string_at(s, ws_end(s, i))
}

/// Parse one numeric field at position `i`: the key token, a colon, and a
/// number, with whitespace allowed between the tokens.
pub open spec fn field_num_at(s: Seq<char>, i: int, key: Seq<char>) -> Option<(u64, int)> {
    match ws_lit_at(s, i, key) {
        None => None,
        Some(j) => match ws_lit_at(s, j, seq![':']) {
            None => None,
            Some(k) => ws_num_at(s, k),
        },
    }
}

/// Parse one string field at position `i`: the key token, a colon, and a
/// quoted string, with whitespace allowed between the tokens.
pub open spec fn field_str_at(s: Seq<char>, i: int, key: Seq<char>) -> Option<(Seq<char>, int)> {
    match ws_lit_at(s, i, key) {
        None => None,
        Some(j) => match ws_lit_at(s, j, seq![':']) {
            None => None,
            Some(k) => ws_string_at(s, k),
        },
    }
}

/// Parse one asset object at position `i`, whitespace allowed between
/// tokens: the brace, the five fields in order, separated by commas, and
/// the closing brace.
pub open spec fn parse_asset_at(s: Seq<char>, i: int) -> Option<(AssetV, int)> {
    match ws_lit_at(s, i, seq!['{']) {
        None => None,
        Some(i1) => match field_num_at(s, i1, key_id()) {
            None => None,
            Some((id, i2)) => match ws_lit_at(s, i2, seq![',']) {
                None => None,
                Some(i3) => match field_str_at(s, i3, key_name()) {
                    None => None,
                    Some((name, i4)) => match ws_lit_at(s, i4, seq![',']) {
                        None => None,
                        Some(i5) => match field_str_at(s, i5, key_category()) {
                            None => None,
                            Some((category, i6)) => match ws_lit_at(s, i6, seq![',']) {
                                None => None,
                                Some(i7) => match field_num_at(s, i7, key_vulnerabilities()) {
                                    None => None,
                                    Some((vulnerabilities, i8)) => match ws_lit_at(s, i8, seq![',']) {
                                        None => None,
                                        Some(i9) => match field_str_at(s, i9, key_created_at()) {
                                            None => None,
                                            Some((created_at, i10)) => match ws_lit_at(s, i10, seq!['}']) {
                                                None => None,
                                                Some(i11) => Some((
                                                    AssetV { id, name, category, vulnerabilities, created_at },
                                                    i11,
                                                )),
                                            },
                                        },
                                    },
                                },
                            },
                        },
                    },
                },
            },
        },
    }
}

/// Parse a non-empty run of comma-separated asset objects at position `i`,
/// closed by `]`. Yields the assets and the position after the bracket.
pub open spec fn parse_items_at(s: Seq<char>, i: int) -> Option<(Seq<AssetV>, int)>
    decreases s.len() - i,
{
    match parse_asset_at(s, i) {
        None => None,
        Some((a, j)) => {
            let j2 = ws_end(s, j);
            if !(i < j2 && j2 < s.len()) {
                None
            } else if s[j2] == ']' {
                Some((seq![a], j2 + 1))
            } else if s[j2] == ',' {
                match parse_items_at(s, j2 + 1) {
                    None => None,
                    Some((rest, k)) => Some((seq![a] + rest, k)),
                }
            } else {
                None
            }
        },
    }
}

/// Parse a whole backing file: a JSON array of asset objects, whitespace
/// allowed around the tokens, with nothing but whitespace after the array.
/// `None` is a parse failure; no partial collection comes back.
pub open spec fn parse_assets_spec(s: Seq<char>) -> Option<Seq<AssetV>> {
    match ws_lit_at(s, 0, seq!['[']) {
        None => None,
        Some(i1) => {
            let i2 = ws_end(s, i1);
            if i2 < s.len() && s[i2] == ']' {
                if ws_end(s, i2 + 1) == s.len() {
                    Some(Seq::empty())
                } else {
                    None
                }
            } else {
                match parse_items_at(s, i1) {
                    None => None,
                    Some((v, j)) => if ws_end(s, j) == s.len() {
                        Some(v)
                    } else {
                        None
                    },
                }
            }
        },
    }
}

// ---------------------------------------------------------------------
// Writing
// ---------------------------------------------------------------------

/// The content of one asset's string field as it stands in the file:
/// quoted, with no escaping (the content is plain).
pub open spec fn quoted(s: Seq<char>) -> Seq<char> {
    seq!['"'] + s + seq!['"']
}

/// The exact characters the store writes for one asset: no whitespace,
/// the fields in order.
pub open spec fn json_of_asset(a: AssetV) -> Seq<char> {
    seq!['{'] + key_id() + seq![':'] + dec_of(a.id as nat)
        + seq![','] + key_name() + seq![':'] + quoted(a.name)
        + seq![','] + key_category() + seq![':'] + quoted(a.category)
        + seq![','] + key_vulnerabilities() + seq![':'] + dec_of(a.vulnerabilities as nat)
        + seq![','] + key_created_at() + seq![':'] + quoted(a.created_at)
        + seq!['}']
}

/// The comma-separated asset objects of a collection.
pub open spec fn json_items_of(v: Seq<AssetV>) -> Seq<char>
    decreases v.len(),
{
    if v.len() == 0 {
        Seq::empty()
    } else if v.len() == 1 {
        json_of_asset(v[0])
    } else {
        json_of_asset(v[0]) + seq![','] + json_items_of(v.subrange(1, v.len() as int))
    }
}

/// The exact characters the store writes for a whole collection.
pub open spec fn json_of(v: Seq<AssetV>) -> Seq<char> {
    seq!['['] + json_items_of(v) + seq![']']
}

// ---------------------------------------------------------------------
// Facts about decimal renderings
// ---------------------------------------------------------------------

/// A decimal rendering is non-empty and holds digit characters only.
pub proof fn lemma_dec_of_digits(n: nat)
    ensures
        dec_of(n).len() >= 1,
        forall|k: int| 0 <= k < dec_of(n).len() ==> is_digit(#[trigger] dec_of(n)[k]),
    decreases n,
{
    if n >= 10 {
        lemma_dec_of_digits(n / 10);
    }
}

/// The digit character of a value below ten is a digit and reads back as
/// that value.
pub proof fn lemma_digit_char_val(d: nat)
    requires
        d < 10,
    ensures
        is_digit(digit_char(d)),
        digit_val(digit_char(d)) == d,
{
}

/// A decimal rendering starts with a zero only for the value zero itself,
/// which renders as that one digit.
pub proof fn lemma_dec_of_no_leading_zero(n: nat)
    requires
        n >= 1,
    ensures
        dec_of(n)[0] as u32 != 48,
    decreases n,
{
    if n < 10 {
    } else {
        lemma_dec_of_no_leading_zero(n / 10);
        lemma_dec_of_digits(n / 10);
        assert(dec_of(n)[0] == dec_of(n / 10)[0]);
    }
}

/// Reading the decimal rendering of `n` back as digits gives `n`.
pub proof fn lemma_digits_val_dec_of(n: nat)
    ensures
        digits_val(dec_of(n)) == n,
    decreases n,
{
    vstd::arithmetic::div_mod::lemma_mod_bound(n as int, 10);
    if n < 10 {
        lemma_digit_char_val(n);
        assert(dec_of(n) == seq![digit_char(n)]);
        assert(dec_of(n).len() == 1);
        assert(seq![digit_char(n)].drop_last() =~= Seq::<char>::empty());
        assert(digits_val(Seq::<char>::empty()) == 0);
        assert(seq![digit_char(n)].last() == digit_char(n));
        assert(digits_val(seq![digit_char(n)]) == digits_val(seq![digit_char(n)].drop_last()) * 10
            + digit_val(digit_char(n)));
    } else {
        lemma_digit_char_val(n % 10);
        lemma_digits_val_dec_of(n / 10);
        let d = dec_of(n / 10);
        assert(dec_of(n).drop_last() =~= d);
        assert(dec_of(n).last() == digit_char(n % 10));
        vstd::arithmetic::div_mod::lemma_fundamental_div_mod(n as int, 10);
    }
}

/// A value below the `k`-th power of ten renders in at most `k` digits.
pub proof fn lemma_dec_of_len(n: nat, k: nat)
    requires
        k >= 1,
        n < pow10(k),
    ensures
        dec_of(n).len() <= k,
    decreases n,
{
    if n < 10 {
    } else {
        vstd::arithmetic::div_mod::lemma_fundamental_div_mod(n as int, 10);
        vstd::arithmetic::div_mod::lemma_mod_bound(n as int, 10);
        reveal_with_fuel(pow10, 3);
        if k == 1 {
            assert(false);
        } else {
            assert(n / 10 < pow10((k - 1) as nat)) by {
                assert(n == 10 * (n / 10) + n % 10);
                assert(n < 10 * pow10((k - 1) as nat));
            };
            lemma_dec_of_len(n / 10, (k - 1) as nat);
        }
    }
}

/// A sequence of digits reads back as a value below the power of ten of
/// its length.
pub proof fn lemma_digits_val_bound(s: Seq<char>)
    requires
        forall|k: int| 0 <= k < s.len() ==> is_digit(#[trigger] s[k]),
    ensures
        digits_val(s) < pow10(s.len()),
    decreases s.len(),
{
    if s.len() > 0 {
        lemma_digits_val_bound(s.drop_last());
    }
}

/// The nineteen-digit ceiling of the codec, as a power of ten.
pub proof fn lemma_pow10_19()
    ensures
        pow10(19) == crate::max_numeric() + 1,
{
    reveal_with_fuel(pow10, 20);
    assert(pow10(19) == 10_000_000_000_000_000_000);
}

// ---------------------------------------------------------------------
// Facts about runs
// ---------------------------------------------------------------------

/// Where a digit run ends: between `i` and the end of the sequence, with
/// digits before it.
pub proof fn lemma_digit_run_props(s: Seq<char>, i: int)
    requires
        0 <= i <= s.len(),
    ensures
        i <= digit_run_end(s, i) <= s.len(),
        forall|k: int| i <= k < digit_run_end(s, i) ==> is_digit(#[trigger] s[k]),
    decreases s.len() - i,
{
    if i < s.len() && is_digit(s[i]) {
        lemma_digit_run_props(s, i + 1);
    }
}

/// A digit run ends exactly where the digits end.
pub proof fn lemma_digit_run_of(s: Seq<char>, i: int, j: int)
    requires
        0 <= i <= j <= s.len(),
        forall|k: int| i <= k < j ==> is_digit(#[trigger] s[k]),
        j == s.len() || !is_digit(s[j]),
    ensures
        digit_run_end(s, i) == j,
    decreases j - i,
{
    if i < j {
        lemma_digit_run_of(s, i + 1, j);
    }
}

/// Where a plain run ends: between `i` and the end of the sequence, with
/// plain characters before it.
pub proof fn lemma_plain_run_props(s: Seq<char>, i: int)
    requires
        0 <= i <= s.len(),
    ensures
        i <= plain_run_end(s, i) <= s.len(),
        forall|k: int| i <= k < plain_run_end(s, i) ==> plain_char(#[trigger] s[k]),
    decreases s.len() - i,
{
    if i < s.len() && plain_char(s[i]) {
        lemma_plain_run_props(s, i + 1);
    }
}

/// A plain run ends exactly where the plain characters end.
pub proof fn lemma_plain_run_of(s: Seq<char>, i: int, j: int)
    requires
        0 <= i <= j <= s.len(),
        forall|k: int| i <= k < j ==> plain_char(#[trigger] s[k]),
        j == s.len() || !plain_char(s[j]),
    ensures
        plain_run_end(s, i) == j,
    decreases j - i,
{
    if i < j {
        lemma_plain_run_of(s, i + 1, j);
    }
}

// ---------------------------------------------------------------------
// Parsing what was written gives back what was written
// ---------------------------------------------------------------------

/// Parsing a number where the rendering of `n` stands, followed by a
/// non-digit, yields `n`.
pub proof fn lemma_parse_num_of(s: Seq<char>, i: int, n: nat)
    requires
        0 <= i,
        n <= crate::max_numeric(),
        i + dec_of(n).len() <= s.len(),
        s.subrange(i, i + dec_of(n).len()) == dec_of(n),
        i + dec_of(n).len() == s.len() || !is_digit(s[i + dec_of(n).len()]),
    ensures
        parse_num_at(s, i) == Some((n as u64, i + dec_of(n).len())),
{
    let len = dec_of(n).len() as int;
    lemma_dec_of_digits(n);
    if len > 1 {
        assert(n >= 10) by {
            if n < 10 {
                assert(dec_of(n).len() == 1);
            }
        };
        lemma_dec_of_no_leading_zero(n);
        assert(s[i] == dec_of(n)[0]);
    }
    assert(forall|k: int| i <= k < i + len ==> is_digit(#[trigger] s[k])) by {
        assert(forall|k: int| i <= k < i + len ==> s[k] == dec_of(n)[k - i]);
    };
    lemma_digit_run_of(s, i, i + len);
    lemma_pow10_19();
    lemma_dec_of_len(n, 19);
    lemma_digits_val_dec_of(n);
    assert(s.subrange(i, i + len) == dec_of(n));
}

/// Parsing a string where a quoted plain content stands yields that
/// content.
pub proof fn lemma_parse_string_of(s: Seq<char>, i: int, c: Seq<char>)
    requires
        0 <= i,
        plain_seq(c),
        i + c.len() + 2 <= s.len(),
        s.subrange(i, i + c.len() + 2) == quoted(c),
    ensures
        parse_string_at(s, i) == Some((c, i + c.len() + 2)),
{
    let clen = c.len() as int;
    let q = s.subrange(i, i + clen + 2);
    assert(forall|k: int| 0 <= k < clen + 2 ==> s[i + k] == #[trigger] q[k]);
    assert(forall|k: int| 0 <= k < clen ==> #[trigger] q[k + 1] == c[k]);
    assert(s[i] == q[0]);
    assert(s[i + clen + 1] == q[clen + 1]);
    assert(forall|k: int| i + 1 <= k < i + 1 + clen ==> plain_char(#[trigger] s[k])) by {
        assert(forall|k: int| i + 1 <= k < i + 1 + clen ==> #[trigger] s[k] == q[k - i] && q[k - i]
            == c[k - i - 1]);
    };
    assert(!plain_char(s[i + clen + 1]));
    lemma_plain_run_of(s, i + 1, i + 1 + clen);
    assert forall|k: int| 0 <= k < clen implies s.subrange(i + 1, i + 1 + clen)[k] == c[k] by {
        assert(s.subrange(i + 1, i + 1 + clen)[k] == s[i + 1 + k]);
        assert(s[i + (k + 1)] == q[k + 1]);
        assert(q[k + 1] == c[k]);
    };
    assert(s.subrange(i + 1, i + 1 + clen) =~= c);
}

/// If the characters at `i` read `a + b`, they read `a` at `i` and `b`
/// right after it.
proof fn lemma_split_at(s: Seq<char>, i: int, a: Seq<char>, b: Seq<char>)
    requires
        0 <= i,
        i + a.len() + b.len() <= s.len(),
        s.subrange(i, i + a.len() + b.len()) == a + b,
    ensures
        s.subrange(i, i + a.len()) == a,
        s.subrange(i + a.len(), i + a.len() + b.len()) == b,
{
    let ab = a + b;
    assert forall|k: int| 0 <= k < a.len() implies s.subrange(i, i + a.len())[k] == a[k] by {
        assert(s.subrange(i, i + ab.len())[k] == s[i + k]);
        assert(s.subrange(i, i + a.len())[k] == s[i + k]);
        assert(ab[k] == a[k]);
    };
    assert(s.subrange(i, i + a.len()) =~= a);
    assert forall|k: int| 0 <= k < b.len() implies s.subrange(
        i + a.len(),
        i + a.len() + b.len(),
    )[k] == b[k] by {
        assert(s.subrange(i, i + ab.len())[a.len() + k] == s[i + a.len() + k]);
        assert(s.subrange(i + a.len(), i + a.len() + b.len())[k] == s[i + a.len() + k]);
        assert(ab[a.len() + k] == b[k]);
    };
    assert(s.subrange(i + a.len(), i + a.len() + b.len()) =~= b);
}

/// Whitespace scanning stays within the sequence.
pub proof fn lemma_ws_end_props(s: Seq<char>, i: int)
    requires
        0 <= i <= s.len(),
    ensures
        i <= ws_end(s, i) <= s.len(),
    decreases s.len() - i,
{
    if i < s.len() && is_ws(s[i]) {
        lemma_ws_end_props(s, i + 1);
    }
}

/// Where no whitespace stands, there is nothing to skip.
proof fn lemma_ws_end_at(s: Seq<char>, i: int)
    requires
        0 <= i,
        i >= s.len() || !is_ws(s[i]),
    ensures
        ws_end(s, i) == i,
{
}

/// Parsing a numeric field where the canonical rendering of the key, the
/// colon and the number stands yields that number.
proof fn lemma_field_num_of(s: Seq<char>, i: int, key: Seq<char>, n: nat)
    requires
        0 <= i,
        n <= crate::max_numeric(),
        key.len() >= 1,
        key[0] == '"',
        i + key.len() + 1 + dec_of(n).len() <= s.len(),
        s.subrange(i, i + key.len() + 1 + dec_of(n).len()) == key + seq![':'] + dec_of(n),
        i + key.len() + 1 + dec_of(n).len() == s.len() || !is_digit(
            s[i + key.len() + 1 + dec_of(n).len()],
        ),
    ensures
        field_num_at(s, i, key) == Some((n as u64, i + key.len() + 1 + dec_of(n).len())),
{
    let kl = key.len() as int;
    let dl = dec_of(n).len() as int;
    assert(key + seq![':'] + dec_of(n) =~= key + (seq![':'] + dec_of(n)));
    lemma_split_at(s, i, key, seq![':'] + dec_of(n));
    lemma_split_at(s, i + kl, seq![':'], dec_of(n));
    assert(s[i] == s.subrange(i, i + kl)[0]);
    assert(s[i] == '"');
    lemma_ws_end_at(s, i);
    assert(parse_lit_at(s, i, key) == Some(i + kl));
    assert(s[i + kl] == s.subrange(i + kl, i + kl + 1)[0]);
    assert(s[i + kl] == ':');
    lemma_ws_end_at(s, i + kl);
    assert(parse_lit_at(s, i + kl, seq![':']) == Some(i + kl + 1));
    lemma_dec_of_digits(n);
    assert(s[i + kl + 1] == s.subrange(i + kl + 1, i + kl + 1 + dl)[0]);
    assert(is_digit(s[i + kl + 1]));
    lemma_ws_end_at(s, i + kl + 1);
    lemma_parse_num_of(s, i + kl + 1, n);
}

/// Parsing a string field where the canonical rendering of the key, the
/// colon and the quoted content stands yields that content.
proof fn lemma_field_str_of(s: Seq<char>, i: int, key: Seq<char>, c: Seq<char>)
    requires
        0 <= i,
        plain_seq(c),
        key.len() >= 1,
        key[0] == '"',
        i + key.len() + 1 + c.len() + 2 <= s.len(),
        s.subrange(i, i + key.len() + 1 + c.len() + 2) == key + seq![':'] + quoted(c),
    ensures
        field_str_at(s, i, key) == Some((c, i + key.len() + 1 + c.len() + 2)),
{
    let kl = key.len() as int;
    assert(key + seq![':'] + quoted(c) =~= key + (seq![':'] + quoted(c)));
    lemma_split_at(s, i, key, seq![':'] + quoted(c));
    lemma_split_at(s, i + kl, seq![':'], quoted(c));
    assert(s[i] == s.subrange(i, i + kl)[0]);
    assert(s[i] == '"');
    lemma_ws_end_at(s, i);
    assert(parse_lit_at(s, i, key) == Some(i + kl));
    assert(s[i + kl] == s.subrange(i + kl, i + kl + 1)[0]);
    assert(s[i + kl] == ':');
    lemma_ws_end_at(s, i + kl);
    assert(parse_lit_at(s, i + kl, seq![':']) == Some(i + kl + 1));
    assert(s[i + kl + 1] == s.subrange(i + kl + 1, i + kl + 1 + c.len() + 2)[0]);
    assert(s[i + kl + 1] == '"');
    lemma_ws_end_at(s, i + kl + 1);
    lemma_parse_string_of(s, i + kl + 1, c);
}

/// Parsing an asset object where the rendering of `a` stands yields `a`.
#[verifier::rlimit(100)]
pub proof fn lemma_parse_asset_of(s: Seq<char>, i: int, a: AssetV)
    requires
        a.wf(),
        0 <= i,
        i + json_of_asset(a).len() <= s.len(),
        s.subrange(i, i + json_of_asset(a).len()) == json_of_asset(a),
    ensures
        parse_asset_at(s, i) == Some((a, i + json_of_asset(a).len())),
{
    let f1 = key_id() + seq![':'] + dec_of(a.id as nat);
    let f2 = key_name() + seq![':'] + quoted(a.name);
    let f3 = key_category() + seq![':'] + quoted(a.category);
    let f4 = key_vulnerabilities() + seq![':'] + dec_of(a.vulnerabilities as nat);
    let f5 = key_created_at() + seq![':'] + quoted(a.created_at);
    let r9 = f5 + seq!['}'];
    let r8 = seq![','] + r9;
    let r7 = f4 + r8;
    let r6 = seq![','] + r7;
    let r5 = f3 + r6;
    let r4 = seq![','] + r5;
    let r3 = f2 + r4;
    let r2 = seq![','] + r3;
    let r1 = f1 + r2;
    assert(json_of_asset(a) =~= seq!['{'] + r1);
    let p0 = i + 1;
    let p1 = p0 + f1.len();
    let p2 = p1 + 1;
    let p3 = p2 + f2.len();
    let p4 = p3 + 1;
    let p5 = p4 + f3.len();
    let p6 = p5 + 1;
    let p7 = p6 + f4.len();
    let p8 = p7 + 1;
    let p9 = p8 + f5.len();
    let p10 = p9 + 1;
    lemma_split_at(s, i, seq!['{'], r1);
    lemma_split_at(s, p0, f1, r2);
    lemma_split_at(s, p1, seq![','], r3);
    lemma_split_at(s, p2, f2, r4);
    lemma_split_at(s, p3, seq![','], r5);
    lemma_split_at(s, p4, f3, r6);
    lemma_split_at(s, p5, seq![','], r7);
    lemma_split_at(s, p6, f4, r8);
    lemma_split_at(s, p7, seq![','], r9);
    lemma_split_at(s, p8, f5, seq!['}']);
    assert(s[i] == s.subrange(i, i + 1)[0]);
    assert(s[i] == '{');
    lemma_ws_end_at(s, i);
    assert(parse_lit_at(s, i, seq!['{']) == Some(p0));
    assert(s[p1] == s.subrange(p1, p2)[0]);
    assert(s[p1] == ',');
    lemma_field_num_of(s, p0, key_id(), a.id as nat);
    lemma_ws_end_at(s, p1);
    assert(parse_lit_at(s, p1, seq![',']) == Some(p2));
    lemma_field_str_of(s, p2, key_name(), a.name);
    assert(s[p3] == s.subrange(p3, p4)[0]);
    assert(s[p3] == ',');
    lemma_ws_end_at(s, p3);
    assert(parse_lit_at(s, p3, seq![',']) == Some(p4));
    lemma_field_str_of(s, p4, key_category(), a.category);
    assert(s[p5] == s.subrange(p5, p6)[0]);
    assert(s[p5] == ',');
    lemma_ws_end_at(s, p5);
    assert(parse_lit_at(s, p5, seq![',']) == Some(p6));
    assert(s[p7] == s.subrange(p7, p8)[0]);
    assert(s[p7] == ',');
    lemma_field_num_of(s, p6, key_vulnerabilities(), a.vulnerabilities as nat);
    lemma_ws_end_at(s, p7);
    assert(parse_lit_at(s, p7, seq![',']) == Some(p8));
    lemma_field_str_of(s, p8, key_created_at(), a.created_at);
    assert(s[p9] == s.subrange(p9, p10)[0]);
    assert(s[p9] == '}');
    lemma_ws_end_at(s, p9);
    assert(parse_lit_at(s, p9, seq!['}']) == Some(p10));
}

/// Parsing comma-separated asset objects closed by `]`, where the
/// renderings of `v` stand, yields `v` and consumes the rest of the input.
#[verifier::rlimit(100)]
pub proof fn lemma_parse_items_of(s: Seq<char>, i: int, v: Seq<AssetV>)
    requires
        crate::model::wf_assets(v),
        v.len() >= 1,
        0 <= i,
        i + json_items_of(v).len() + 1 == s.len(),
        s.subrange(i, s.len() as int) == json_items_of(v) + seq![']'],
    ensures
        parse_items_at(s, i) == Some((v, s.len() as int)),
    decreases v.len(),
{
    let items = json_items_of(v);
    let a0 = v[0];
    assert(a0.wf());
    let j0 = json_of_asset(a0);
    assert(j0.len() >= 1) by {
        assert(j0 =~= seq!['{'] + (j0.subrange(1, j0.len() as int)));
    };
    if v.len() == 1 {
        assert(items == j0);
        lemma_split_at(s, i, j0, seq![']']);
        lemma_parse_asset_of(s, i, a0);
        let p = i + j0.len();
        assert(s.subrange(p, p + 1) == seq![']']);
        assert(s[p] == s.subrange(p, p + 1)[0]);
        assert(s[p] == ']');
        lemma_ws_end_at(s, p);
        assert(parse_items_at(s, i) == Some((seq![a0], p + 1)));
        assert(seq![a0] =~= v);
    } else {
        let rest = v.subrange(1, v.len() as int);
        let r2 = json_items_of(rest) + seq![']'];
        assert(items == j0 + seq![','] + json_items_of(rest));
        assert(items + seq![']'] =~= j0 + (seq![','] + r2));
        lemma_split_at(s, i, j0, seq![','] + r2);
        lemma_parse_asset_of(s, i, a0);
        let p = i + j0.len();
        lemma_split_at(s, p, seq![','], r2);
        assert(s.subrange(p, p + 1) == seq![',']);
        assert(s[p] == s.subrange(p, p + 1)[0]);
        assert(s[p] == ',');
        lemma_ws_end_at(s, p);
        assert(crate::model::wf_assets(rest)) by {
            assert(forall|k: int| 0 <= k < rest.len() ==> #[trigger] rest[k] == v[k + 1]);
        };
        lemma_parse_items_of(s, p + 1, rest);
        assert(seq![a0] + rest =~= v);
    }
}

/// Law: writing a well-formed collection and parsing the result gives back
/// exactly that collection, in order.
pub proof fn lemma_write_read_roundtrip(v: Seq<AssetV>)
    requires
        crate::model::wf_assets(v),
    ensures
        parse_assets_spec(json_of(v)) == Some(v),
{
    let s = json_of(v);
    let items = json_items_of(v);
    assert(s[0] == '[');
    lemma_ws_end_at(s, 0);
    assert(s.subrange(0, 1) =~= seq!['[']);
    assert(ws_lit_at(s, 0, seq!['[']) == Some(1int));
    if v.len() == 0 {
        assert(s =~= seq!['[', ']']);
        assert(s[1] == ']');
        lemma_ws_end_at(s, 1);
        lemma_ws_end_at(s, 2);
        assert(Seq::<AssetV>::empty() =~= v);
    } else {
        let j0 = json_of_asset(v[0]);
        assert(j0 =~= seq!['{'] + (j0.subrange(1, j0.len() as int)));
        assert(j0.len() >= 1 && j0[0] == '{');
        if v.len() == 1 {
            assert(items == j0);
        } else {
            assert(items == j0 + seq![','] + json_items_of(v.subrange(1, v.len() as int)));
        }
        assert(items.len() >= 1 && items[0] == '{');
        assert(s.len() > 2);
        assert(s[1] == items[0]);
        lemma_ws_end_at(s, 1);
        assert(!(s[1] == ']'));
        assert(s.subrange(1, s.len() as int) =~= items + seq![']']);
        lemma_parse_items_of(s, 1, v);
        lemma_ws_end_at(s, s.len() as int);
    }
}

// ---------------------------------------------------------------------
// Whatever parses is well-formed
// ---------------------------------------------------------------------

/// Powers of ten do not decrease.
proof fn lemma_pow10_mono(a: nat, b: nat)
    requires
        a <= b,
    ensures
        pow10(a) <= pow10(b),
    decreases b,
{
    if a < b {
        lemma_pow10_mono(a, (b - 1) as nat);
    }
}

/// A parsed number is within the numeric ceiling, and ends strictly past
/// where it started, at most at the end of the input.
pub proof fn lemma_parse_num_props(s: Seq<char>, i: int)
    requires
        0 <= i <= s.len(),
    ensures
        parse_num_at(s, i) matches Some((n, j)) ==> i < j <= s.len() && n as nat
            <= crate::max_numeric(),
{
    lemma_digit_run_props(s, i);
    if parse_num_at(s, i) is Some {
        let j = digit_run_end(s, i);
        let ds = s.subrange(i, j);
        assert(forall|k: int| 0 <= k < ds.len() ==> is_digit(#[trigger] ds[k])) by {
            assert(forall|k: int| 0 <= k < ds.len() ==> #[trigger] ds[k] == s[i + k]);
        };
        lemma_digits_val_bound(ds);
        lemma_pow10_mono(ds.len() as nat, 19);
        lemma_pow10_19();
    }
}

/// A parsed string is plain, and ends strictly past where it started, at
/// most at the end of the input.
pub proof fn lemma_parse_string_props(s: Seq<char>, i: int)
    requires
        0 <= i <= s.len(),
    ensures
        parse_string_at(s, i) matches Some((c, j)) ==> i < j <= s.len() && plain_seq(c),
{
    if 0 <= i < s.len() && s[i] == '"' {
        lemma_plain_run_props(s, i + 1);
        let r = plain_run_end(s, i + 1);
        if r < s.len() && s[r] == '"' {
            let c = s.subrange(i + 1, r);
            assert(forall|k: int| 0 <= k < c.len() ==> plain_char(#[trigger] c[k])) by {
                assert(forall|k: int| 0 <= k < c.len() ==> #[trigger] c[k] == s[i + 1 + k]);
            };
        }
    }
}

/// A matched token ends no earlier than where the scan began and no later
/// than the end of the input.
proof fn lemma_ws_lit_props(s: Seq<char>, i: int, lit: Seq<char>)
    requires
        0 <= i <= s.len(),
    ensures
        ws_lit_at(s, i, lit) matches Some(j) ==> i <= j <= s.len(),
{
    lemma_ws_end_props(s, i);
}

/// A parsed numeric field is within the numeric ceiling and ends strictly
/// past where it started, at most at the end of the input.
proof fn lemma_field_num_props(s: Seq<char>, i: int, key: Seq<char>)
    requires
        0 <= i <= s.len(),
    ensures
        field_num_at(s, i, key) matches Some((n, j)) ==> i < j <= s.len() && n as nat
            <= crate::max_numeric(),
{
    lemma_ws_lit_props(s, i, key);
    if ws_lit_at(s, i, key) is Some {
        let j1 = ws_lit_at(s, i, key)->0;
        lemma_ws_lit_props(s, j1, seq![':']);
        if ws_lit_at(s, j1, seq![':']) is Some {
            let j2 = ws_lit_at(s, j1, seq![':'])->0;
            lemma_ws_end_props(s, j2);
            lemma_parse_num_props(s, ws_end(s, j2));
        }
    }
}

/// A parsed string field is plain and ends strictly past where it started,
/// at most at the end of the input.
proof fn lemma_field_str_props(s: Seq<char>, i: int, key: Seq<char>)
    requires
        0 <= i <= s.len(),
    ensures
        field_str_at(s, i, key) matches Some((c, j)) ==> i < j <= s.len() && plain_seq(c),
{
    lemma_ws_lit_props(s, i, key);
    if ws_lit_at(s, i, key) is Some {
        let j1 = ws_lit_at(s, i, key)->0;
        lemma_ws_lit_props(s, j1, seq![':']);
        if ws_lit_at(s, j1, seq![':']) is Some {
            let j2 = ws_lit_at(s, j1, seq![':'])->0;
            lemma_ws_end_props(s, j2);
            lemma_parse_string_props(s, ws_end(s, j2));
        }
    }
}

/// A parsed asset is well-formed, and ends strictly past where it started,
/// at most at the end of the input.
pub proof fn lemma_parse_asset_props(s: Seq<char>, i: int)
    requires
        0 <= i <= s.len(),
    ensures
        parse_asset_at(s, i) matches Some((a, j)) ==> i < j <= s.len() && a.wf(),
{
    lemma_ws_lit_props(s, i, seq!['{']);
    if ws_lit_at(s, i, seq!['{']) is Some {
        let i1 = ws_lit_at(s, i, seq!['{'])->0;
        lemma_field_num_props(s, i1, key_id());
        if field_num_at(s, i1, key_id()) is Some {
            let i2 = (field_num_at(s, i1, key_id())->0).1;
            lemma_ws_lit_props(s, i2, seq![',']);
            if ws_lit_at(s, i2, seq![',']) is Some {
                let i3 = ws_lit_at(s, i2, seq![','])->0;
                lemma_field_str_props(s, i3, key_name());
                if field_str_at(s, i3, key_name()) is Some {
                    let i4 = (field_str_at(s, i3, key_name())->0).1;
                    lemma_ws_lit_props(s, i4, seq![',']);
                    if ws_lit_at(s, i4, seq![',']) is Some {
                        let i5 = ws_lit_at(s, i4, seq![','])->0;
                        lemma_field_str_props(s, i5, key_category());
                        if field_str_at(s, i5, key_category()) is Some {
                            let i6 = (field_str_at(s, i5, key_category())->0).1;
                            lemma_ws_lit_props(s, i6, seq![',']);
                            if ws_lit_at(s, i6, seq![',']) is Some {
                                let i7 = ws_lit_at(s, i6, seq![','])->0;
                                lemma_field_num_props(s, i7, key_vulnerabilities());
                                if field_num_at(s, i7, key_vulnerabilities()) is Some {
                                    let i8 = (field_num_at(s, i7, key_vulnerabilities())->0).1;
                                    lemma_ws_lit_props(s, i8, seq![',']);
                                    if ws_lit_at(s, i8, seq![',']) is Some {
                                        let i9 = ws_lit_at(s, i8, seq![','])->0;
                                        lemma_field_str_props(s, i9, key_created_at());
                                        if field_str_at(s, i9, key_created_at()) is Some {
                                            let i10 = (field_str_at(s, i9, key_created_at())->0).1;
                                            lemma_ws_lit_props(s, i10, seq!['}']);
                                        }
                                    }
                                }
                            }
                        }
                    }
                }
            }
        }
    }
}

/// Whatever a run of asset objects parses to is well-formed, and the run
/// ends strictly past where it started, at most at the end of the input.
pub proof fn lemma_parse_items_props(s: Seq<char>, i: int)
    requires
        0 <= i <= s.len(),
    ensures
        parse_items_at(s, i) matches Some((v, j)) ==> i < j <= s.len()
            && crate::model::wf_assets(v),
    decreases s.len() - i,
{
    lemma_parse_asset_props(s, i);
    if parse_asset_at(s, i) is Some {
        let a = (parse_asset_at(s, i)->0).0;
        let j = (parse_asset_at(s, i)->0).1;
        lemma_ws_end_props(s, j);
        let j2 = ws_end(s, j);
        if i < j2 && j2 < s.len() && s[j2] == ',' {
            lemma_parse_items_props(s, j2 + 1);
            if parse_items_at(s, j2 + 1) is Some {
                let rest = (parse_items_at(s, j2 + 1)->0).0;
                assert(crate::model::wf_assets(seq![a] + rest)) by {
                    assert(forall|m: int| 0 <= m < rest.len() ==> (seq![a] + rest)[m + 1]
                        == #[trigger] rest[m]);
                    assert(forall|m: int| 0 <= m < (seq![a] + rest).len() ==> (#[trigger] (seq![a]
                        + rest)[m]).wf());
                };
            }
        }
    }
}

/// A parse of the backing file never hands back an asset the store could
/// not write again: everything parsed is well-formed.
pub proof fn lemma_parse_wf(s: Seq<char>)
    ensures
        parse_assets_spec(s) matches Some(v) ==> crate::model::wf_assets(v),
{
    lemma_ws_lit_props(s, 0, seq!['[']);
    if ws_lit_at(s, 0, seq!['[']) is Some {
        let i1 = ws_lit_at(s, 0, seq!['['])->0;
        let i2 = ws_end(s, i1);
        if !(i2 < s.len() && s[i2] == ']') {
            lemma_parse_items_props(s, i1);
        }
    }
}

/// Law: a collection loaded from the store, written back and loaded again
/// is the same collection, element for element and in order.
pub proof fn lemma_load_save_roundtrip(s: Seq<char>)
    ensures
        parse_assets_spec(s) matches Some(v) ==> parse_assets_spec(json_of(v)) == Some(v),
{
    lemma_parse_wf(s);
    if parse_assets_spec(s) is Some {
        lemma_write_read_roundtrip(parse_assets_spec(s)->0);
    }
}

// ---------------------------------------------------------------------
// The executable parser
// ---------------------------------------------------------------------

/// Scan past the digits that start at `i`.
fn scan_digits(s: &str, n: usize, i: usize) -> (j: usize)
    requires
        n == s@.len(),
        i <= n,
    ensures
        i <= j <= n,
        digit_run_end(s@, i as int) == j as int,
{
    let mut j = i;
    loop
        invariant_except_break
            i <= j <= n,
            n == s@.len(),
            digit_run_end(s@, i as int) == digit_run_end(s@, j as int),
        ensures
            i <= j <= n,
            digit_run_end(s@, i as int) == j as int,
        decreases n - j,
    {
        if j >= n {
            break ;
        }
        let u = s.get_char(j) as u32;
        if !(48 <= u && u <= 57) {
            proof {
                assert(!is_digit(s@[j as int]));
            }
            break ;
        }
        j = j + 1;
    }
    j
}

/// Scan past the plain characters that start at `i`.
fn scan_plain(s: &str, n: usize, i: usize) -> (j: usize)
    requires
        n == s@.len(),
        i <= n,
    ensures
        i <= j <= n,
        plain_run_end(s@, i as int) == j as int,
{
    let mut j = i;
    loop
        invariant_except_break
            i <= j <= n,
            n == s@.len(),
            plain_run_end(s@, i as int) == plain_run_end(s@, j as int),
        ensures
            i <= j <= n,
            plain_run_end(s@, i as int) == j as int,
        decreases n - j,
    {
        if j >= n {
            break ;
        }
        let u = s.get_char(j) as u32;
        if !(u != 34 && u != 92 && 0x20 <= u && u <= 0x7e) {
            proof {
                assert(!plain_char(s@[j as int]));
            }
            break ;
        }
        j = j + 1;
    }
    j
}

/// Parse a run of one to nineteen digits at `i`.
fn parse_num(s: &str, n: usize, i: usize) -> (r: Option<(u64, usize)>)
    requires
        n == s@.len(),
        i <= n,
    ensures
        r is None ==> parse_num_at(s@, i as int) is None,
        r matches Some((v, j)) ==> parse_num_at(s@, i as int) == Some((v, j as int)) && i < j
            <= n,
{
    let j = scan_digits(s, n, i);
    if j == i || j - i > 19 {
        return None;
    }
    if j - i > 1 && s.get_char(i) as u32 == 48 {
        return None;
    }
    proof {
        lemma_digit_run_props(s@, i as int);
        lemma_pow10_19();
        reveal_with_fuel(pow10, 3);
        assert(s@.subrange(i as int, i as int) =~= Seq::<char>::empty());
    }
    let ghost all = s@.subrange(i as int, j as int);
    let mut acc: u64 = 0;
    let mut k = i;
    while k < j
        invariant
            i <= k <= j <= n,
            n == s@.len(),
            j - i <= 19,
            j == digit_run_end(s@, i as int),
            forall|m: int| i <= m < j ==> is_digit(#[trigger] s@[m]),
            acc == digits_val(s@.subrange(i as int, k as int)),
            acc < pow10((k - i) as nat),
        decreases j - k,
    {
        let c = s.get_char(k);
        proof {
            assert(is_digit(s@[k as int]));
            lemma_pow10_mono((k - i) as nat, 18);
            lemma_pow10_19();
            assert(pow10(19) == 10 * pow10(18));
            assert(s@.subrange(i as int, k as int + 1).drop_last() =~= s@.subrange(
                i as int,
                k as int,
            ));
            assert(s@.subrange(i as int, k as int + 1).last() == s@[k as int]);
        }
        let d = (c as u32 - 48) as u64;
        acc = acc * 10 + d;
        k = k + 1;
    }
    Some((acc, j))
}

/// Match the characters of `lit` at `i`.
fn expect_lit(s: &str, n: usize, i: usize, lit: &str) -> (r: Option<usize>)
    requires
        n == s@.len(),
        i <= n,
    ensures
        r is None ==> parse_lit_at(s@, i as int, lit@) is None,
        r matches Some(j) ==> parse_lit_at(s@, i as int, lit@) == Some(j as int) && i <= j <= n,
{
    let litlen = lit.unicode_len();
    if litlen > n - i {
        return None;
    }
    let mut k: usize = 0;
    while k < litlen
        invariant
            0 <= k <= litlen,
            n == s@.len(),
            litlen == lit@.len(),
            i + litlen <= n,
            forall|m: int| 0 <= m < k ==> s@[i + m] == lit@[m],
        decreases litlen - k,
    {
        if s.get_char(i + k) != lit.get_char(k) {
            proof {
                assert(s@.subrange(i as int, i + litlen as int)[k as int] != lit@[k as int]);
            }
            return None;
        }
        k = k + 1;
    }
    proof {
        assert(s@.subrange(i as int, i + litlen as int) =~= lit@);
    }
    Some(i + litlen)
}

/// Parse a quoted string of plain characters at `i`.
fn parse_string(s: &str, n: usize, i: usize) -> (r: Option<(String, usize)>)
    requires
        n == s@.len(),
        i <= n,
    ensures
        r is None ==> parse_string_at(s@, i as int) is None,
        r matches Some((c, j)) ==> parse_string_at(s@, i as int) == Some((c@, j as int)) && i < j
            <= n,
{
    if i >= n {
        return None;
    }
    if s.get_char(i) as u32 != 34 {
        proof {
            assert(s@[i as int] != '"');
        }
        return None;
    }
    proof {
        assert(s@[i as int] == '"');
    }
    let j = scan_plain(s, n, i + 1);
    if j >= n {
        return None;
    }
    if s.get_char(j) as u32 != 34 {
        proof {
            assert(s@[j as int] != '"');
        }
        return None;
    }
    let content = s.substring_char(i + 1, j).to_owned();
    Some((content, j + 1))
}

/// Scan past the whitespace that starts at `i`.
fn skip_ws(s: &str, n: usize, i: usize) -> (j: usize)
    requires
        n == s@.len(),
        i <= n,
    ensures
        i <= j <= n,
        ws_end(s@, i as int) == j as int,
{
    let mut j = i;
    loop
        invariant_except_break
            i <= j <= n,
            n == s@.len(),
            ws_end(s@, i as int) == ws_end(s@, j as int),
        ensures
            i <= j <= n,
            ws_end(s@, i as int) == j as int,
        decreases n - j,
    {
        if j >= n {
            break ;
        }
        let u = s.get_char(j) as u32;
        if !(u == 0x20 || u == 0x09 || u == 0x0a || u == 0x0d) {
            proof {
                assert(!is_ws(s@[j as int]));
            }
            break ;
        }
        j = j + 1;
    }
    j
}

/// Skip whitespace, then match the characters of `lit`.
fn expect_tok(s: &str, n: usize, i: usize, lit: &str) -> (r: Option<usize>)
    requires
        n == s@.len(),
        i <= n,
    ensures
        r is None ==> ws_lit_at(s@, i as int, lit@) is None,
        r matches Some(j) ==> ws_lit_at(s@, i as int, lit@) == Some(j as int) && i <= j <= n,
{
    let w = skip_ws(s, n, i);
    expect_lit(s, n, w, lit)
}

/// Skip whitespace, then parse a number token.
fn parse_num_tok(s: &str, n: usize, i: usize) -> (r: Option<(u64, usize)>)
    requires
        n == s@.len(),
        i <= n,
    ensures
        r is None ==> ws_num_at(s@, i as int) is None,
        r matches Some((v, j)) ==> ws_num_at(s@, i as int) == Some((v, j as int)) && i < j <= n,
{
    let w = skip_ws(s, n, i);
    parse_num(s, n, w)
}

/// Skip whitespace, then parse a string token.
fn parse_string_tok(s: &str, n: usize, i: usize) -> (r: Option<(String, usize)>)
    requires
        n == s@.len(),
        i <= n,
    ensures
        r is None ==> ws_string_at(s@, i as int) is None,
        r matches Some((c, j)) ==> ws_string_at(s@, i as int) == Some((c@, j as int)) && i < j
            <= n,
{
    let w = skip_ws(s, n, i);
    parse_string(s, n, w)
}

/// Parse one numeric field at `i`: the key, a colon, a number.
fn parse_field_num(s: &str, n: usize, i: usize, key: &str) -> (r: Option<(u64, usize)>)
    requires
        n == s@.len(),
        i <= n,
    ensures
        r is None ==> field_num_at(s@, i as int, key@) is None,
        r matches Some((v, j)) ==> field_num_at(s@, i as int, key@) == Some((v, j as int)) && i
            < j <= n,
{
    proof {
        reveal_strlit(":");
        assert((":")@ =~= seq![':']);
    }
    let j1 = match expect_tok(s, n, i, key) {
        Some(x) => x,
        None => {
            return None;
        },
    };
    let j2 = match expect_tok(s, n, j1, ":") {
        Some(x) => x,
        None => {
            return None;
        },
    };
    parse_num_tok(s, n, j2)
}

/// Parse one string field at `i`: the key, a colon, a quoted string.
fn parse_field_str(s: &str, n: usize, i: usize, key: &str) -> (r: Option<(String, usize)>)
    requires
        n == s@.len(),
        i <= n,
    ensures
        r is None ==> field_str_at(s@, i as int, key@) is None,
        r matches Some((c, j)) ==> field_str_at(s@, i as int, key@) == Some((c@, j as int)) && i
            < j <= n,
{
    proof {
        reveal_strlit(":");
        assert((":")@ =~= seq![':']);
    }
    let j1 = match expect_tok(s, n, i, key) {
        Some(x) => x,
        None => {
            return None;
        },
    };
    let j2 = match expect_tok(s, n, j1, ":") {
        Some(x) => x,
        None => {
            return None;
        },
    };
    parse_string_tok(s, n, j2)
}

/// Parse one asset object at `i`.
fn parse_asset(s: &str, n: usize, i: usize) -> (r: Option<(Asset, usize)>)
    requires
        n == s@.len(),
        i <= n,
    ensures
        r is None ==> parse_asset_at(s@, i as int) is None,
        r matches Some((a, j)) ==> parse_asset_at(s@, i as int) == Some((a@, j as int)) && i < j
            <= n,
{
    proof {
        reveal_strlit("{");
        reveal_strlit("}");
        reveal_strlit(",");
        reveal_strlit("\"id\"");
        reveal_strlit("\"name\"");
        reveal_strlit("\"category\"");
        reveal_strlit("\"vulnerabilities\"");
        reveal_strlit("\"created_at\"");
        assert(("{")@ =~= seq!['{']);
        assert(("}")@ =~= seq!['}']);
        assert((",")@ =~= seq![',']);
        assert(("\"id\"")@ =~= key_id());
        assert(("\"name\"")@ =~= key_name());
        assert(("\"category\"")@ =~= key_category());
        assert(("\"vulnerabilities\"")@ =~= key_vulnerabilities());
        assert(("\"created_at\"")@ =~= key_created_at());
    }
    let i1 = match expect_tok(s, n, i, "{") {
        Some(x) => x,
        None => {
            return None;
        },
    };
    let (id, i2) = match parse_field_num(s, n, i1, "\"id\"") {
        Some(x) => x,
        None => {
            return None;
        },
    };
    let i3 = match expect_tok(s, n, i2, ",") {
        Some(x) => x,
        None => {
            return None;
        },
    };
    let (name, i4) = match parse_field_str(s, n, i3, "\"name\"") {
        Some(x) => x,
        None => {
            return None;
        },
    };
    let i5 = match expect_tok(s, n, i4, ",") {
        Some(x) => x,
        None => {
            return None;
        },
    };
    let (category, i6) = match parse_field_str(s, n, i5, "\"category\"") {
        Some(x) => x,
        None => {
            return None;
        },
    };
    let i7 = match expect_tok(s, n, i6, ",") {
        Some(x) => x,
        None => {
            return None;
        },
    };
    let (vulnerabilities, i8) = match parse_field_num(s, n, i7, "\"vulnerabilities\"") {
        Some(x) => x,
        None => {
            return None;
        },
    };
    let i9 = match expect_tok(s, n, i8, ",") {
        Some(x) => x,
        None => {
            return None;
        },
    };
    let (created_at, i10) = match parse_field_str(s, n, i9, "\"created_at\"") {
        Some(x) => x,
        None => {
            return None;
        },
    };
    let i11 = match expect_tok(s, n, i10, "}") {
        Some(x) => x,
        None => {
            return None;
        },
    };
    let a = Asset { id, name, category, vulnerabilities, created_at };
    Some((a, i11))
}

/// Parse the comma-separated asset objects from `i` up to the closing
/// bracket.
fn parse_items(s: &str, n: usize, i: usize) -> (r: Option<(Vec<Asset>, usize)>)
    requires
        n == s@.len(),
        i <= n,
    ensures
        r is None ==> parse_items_at(s@, i as int) is None,
        r matches Some((v, j)) ==> parse_items_at(s@, i as int) == Some(
            (views_of(v@), j as int),
        ) && i < j <= n,
{
    let mut out: Vec<Asset> = Vec::new();
    let mut cur = i;
    loop
        invariant
            i <= cur <= n,
            n == s@.len(),
            parse_items_at(s@, i as int) is Some <==> parse_items_at(s@, cur as int) is Some,
            parse_items_at(s@, cur as int) matches Some((rest, k)) ==> parse_items_at(
                s@,
                i as int,
            ) == Some((views_of(out@) + rest, k)),
        decreases n - cur,
    {
        match parse_asset(s, n, cur) {
            None => {
                return None;
            },
            Some((a, j)) => {
                let j2 = skip_ws(s, n, j);
                if j2 >= n {
                    return None;
                }
                let c = s.get_char(j2) as u32;
                if c == 93 {
                    proof {
                        assert(s@[j2 as int] == ']');
                        assert(parse_items_at(s@, cur as int) == Some(
                            (seq![a@], j2 as int + 1),
                        ));
                        assert(views_of(out@.push(a)) =~= views_of(out@) + seq![a@]);
                    }
                    out.push(a);
                    return Some((out, j2 + 1));
                } else if c == 44 {
                    proof {
                        assert(s@[j2 as int] == ',');
                        assert(s@[j2 as int] != ']');
                        assert(views_of(out@.push(a)) =~= views_of(out@) + seq![a@]);
                        if parse_items_at(s@, j2 as int + 1) is Some {
                            let rest = (parse_items_at(s@, j2 as int + 1)->0).0;
                            assert(views_of(out@) + (seq![a@] + rest) =~= (views_of(out@)
                                + seq![a@]) + rest);
                        }
                    }
                    out.push(a);
                    cur = j2 + 1;
                } else {
                    proof {
                        assert(s@[j2 as int] != ']');
                        assert(s@[j2 as int] != ',');
                    }
                    return None;
                }
            },
        }
    }
}

/// Read a collection out of the backing file's content: a JSON array of
/// asset records, whitespace allowed between tokens. Returns
/// `StorageParseError`, and no partial collection, exactly when the content
/// is not such an array.
pub fn read_db(content: &str) -> (r: Result<Vec<Asset>, Error>)
    ensures
        r matches Ok(v) ==> parse_assets_spec(content@) == Some(views_of(v@)) && wf_assets(
            views_of(v@),
        ),
        r is Err ==> r == Err::<Vec<Asset>, Error>(Error::StorageParseError)
            && parse_assets_spec(content@) is None,
        parse_assets_spec(content@) is Some ==> r is Ok,
{
    proof {
        lemma_parse_wf(content@);
        reveal_strlit("[");
        assert(("[")@ =~= seq!['[']);
    }
    let n = content.unicode_len();
    let i1 = match expect_tok(content, n, 0, "[") {
        Some(x) => x,
        None => {
            return Err(Error::StorageParseError);
        },
    };
    let i2 = skip_ws(content, n, i1);
    if i2 < n && content.get_char(i2) as u32 == 93 {
        proof {
            assert(content@[i2 as int] == ']');
        }
        let i3 = skip_ws(content, n, i2 + 1);
        if i3 == n {
            proof {
                assert(views_of(Seq::<Asset>::empty()) =~= Seq::<AssetV>::empty());
            }
            let empty: Vec<Asset> = Vec::new();
            return Ok(empty);
        } else {
            return Err(Error::StorageParseError);
        }
    }
    proof {
        assert(!((i2 as int) < content@.len() && content@[i2 as int] == ']')) by {
            if i2 < n {
                assert(content@[i2 as int] as u32 != 93);
            }
        };
    }
    match parse_items(content, n, i1) {
        None => Err(Error::StorageParseError),
        Some((v, j)) => {
            let j2 = skip_ws(content, n, j);
            if j2 == n {
                Ok(v)
            } else {
                Err(Error::StorageParseError)
            }
        },
    }
}

// ---------------------------------------------------------------------
// The executable writer
// ---------------------------------------------------------------------

/// Append the decimal rendering of `x`.
fn push_dec(out: &mut String, x: u64)
    ensures
        final(out)@ == old(out)@ + dec_of(x as nat),
    decreases x,
{
    if x >= 10 {
        push_dec(out, x / 10);
    }
    let ghost mid = out@;
    let d = x % 10;
    if d == 0 {
        out.append("0");
        proof {
            reveal_strlit("0");
            assert(("0")@ =~= seq![digit_char((x % 10) as nat)]);
        }
    } else if d == 1 {
        out.append("1");
        proof {
            reveal_strlit("1");
            assert(("1")@ =~= seq![digit_char((x % 10) as nat)]);
        }
    } else if d == 2 {
        out.append("2");
        proof {
            reveal_strlit("2");
            assert(("2")@ =~= seq![digit_char((x % 10) as nat)]);
        }
    } else if d == 3 {
        out.append("3");
        proof {
            reveal_strlit("3");
            assert(("3")@ =~= seq![digit_char((x % 10) as nat)]);
        }
    } else if d == 4 {
        out.append("4");
        proof {
            reveal_strlit("4");
            assert(("4")@ =~= seq![digit_char((x % 10) as nat)]);
        }
    } else if d == 5 {
        out.append("5");
        proof {
            reveal_strlit("5");
            assert(("5")@ =~= seq![digit_char((x % 10) as nat)]);
        }
    } else if d == 6 {
        out.append("6");
        proof {
            reveal_strlit("6");
            assert(("6")@ =~= seq![digit_char((x % 10) as nat)]);
        }
    } else if d == 7 {
        out.append("7");
        proof {
            reveal_strlit("7");
            assert(("7")@ =~= seq![digit_char((x % 10) as nat)]);
        }
    } else if d == 8 {
        out.append("8");
        proof {
            reveal_strlit("8");
            assert(("8")@ =~= seq![digit_char((x % 10) as nat)]);
        }
    } else {
        out.append("9");
        proof {
            reveal_strlit("9");
            assert(("9")@ =~= seq![digit_char((x % 10) as nat)]);
        }
    }
    proof {
        if x < 10 {
            assert(out@ =~= old(out)@ + dec_of(x as nat));
        } else {
            assert((x / 10) as nat == x as nat / 10);
            assert((x % 10) as nat == x as nat % 10);
            assert(out@ =~= old(out)@ + (dec_of(x as nat / 10) + seq![digit_char(
                x as nat % 10,
            )]));
        }
    }
}

/// Append a string field: quoted, unescaped.
fn push_quoted(out: &mut String, field: &String)
    ensures
        final(out)@ == old(out)@ + quoted(field@),
{
    out.append("\"");
    out.append(field.as_str());
    out.append("\"");
    proof {
        reveal_strlit("\"");
        assert(("\"")@ =~= seq!['"']);
        assert(out@ =~= old(out)@ + quoted(field@));
    }
}

/// Append the rendering of one asset.
fn push_asset(out: &mut String, a: &Asset)
    ensures
        final(out)@ == old(out)@ + json_of_asset(a@),
{
    proof {
        reveal_strlit("{\"id\":");
        reveal_strlit(",\"name\":");
        reveal_strlit(",\"category\":");
        reveal_strlit(",\"vulnerabilities\":");
        reveal_strlit(",\"created_at\":");
        reveal_strlit("}");
        assert(("{\"id\":")@ =~= seq!['{'] + key_id() + seq![':']);
        assert((",\"name\":")@ =~= seq![','] + key_name() + seq![':']);
        assert((",\"category\":")@ =~= seq![','] + key_category() + seq![':']);
        assert((",\"vulnerabilities\":")@ =~= seq![','] + key_vulnerabilities() + seq![':']);
        assert((",\"created_at\":")@ =~= seq![','] + key_created_at() + seq![':']);
        assert(("}")@ =~= seq!['}']);
    }
    out.append("{\"id\":");
    push_dec(out, a.id);
    out.append(",\"name\":");
    push_quoted(out, &a.name);
    out.append(",\"category\":");
    push_quoted(out, &a.category);
    out.append(",\"vulnerabilities\":");
    push_dec(out, a.vulnerabilities);
    out.append(",\"created_at\":");
    push_quoted(out, &a.created_at);
    out.append("}");
    proof {
        assert(out@ =~= old(out)@ + json_of_asset(a@));
    }
}

/// One comma-separated asset more at the end of a rendered run.
proof fn lemma_items_snoc(v: Seq<AssetV>, a: AssetV)
    requires
        v.len() >= 1,
    ensures
        json_items_of(v.push(a)) == json_items_of(v) + seq![','] + json_of_asset(a),
    decreases v.len(),
{
    let w = v.push(a);
    if v.len() == 1 {
        assert(w.subrange(1, w.len() as int) =~= seq![a]);
        assert(json_items_of(seq![a]) == json_of_asset(a));
        assert(json_items_of(w) =~= json_items_of(v) + seq![','] + json_of_asset(a));
    } else {
        let vrest = v.subrange(1, v.len() as int);
        lemma_items_snoc(vrest, a);
        assert(w.subrange(1, w.len() as int) =~= vrest.push(a));
        assert(json_items_of(w) =~= json_items_of(v) + seq![','] + json_of_asset(a));
    }
}

/// Render a collection as the content of the backing file: the exact
/// characters of `json_of` on the collection's views.
pub fn write_db(assets: &Vec<Asset>) -> (r: String)
    ensures
        r@ == json_of(views_of(assets@)),
{
    let mut out = String::new();
    out.append("[");
    proof {
        reveal_strlit("[");
        reveal_strlit("]");
        reveal_strlit(",");
        assert(("[")@ =~= seq!['[']);
        assert(("]")@ =~= seq![']']);
        assert((",")@ =~= seq![',']);
        assert(views_of(assets@.subrange(0, 0)) =~= Seq::<AssetV>::empty());
        assert(out@ =~= seq!['['] + json_items_of(views_of(assets@.subrange(0, 0))));
    }
    let mut k: usize = 0;
    while k < assets.len()
        invariant
            0 <= k <= assets.len(),
            out@ == seq!['['] + json_items_of(views_of(assets@.subrange(0, k as int))),
            ("]")@ == seq![']'],
            (",")@ == seq![','],
        decreases assets.len() - k,
    {
        let ghost pre = views_of(assets@.subrange(0, k as int));
        let ghost now = views_of(assets@.subrange(0, k as int + 1));
        if k > 0 {
            out.append(",");
        }
        push_asset(&mut out, &assets[k]);
        proof {
            assert(now =~= pre.push(assets@[k as int]@));
            if k == 0 {
                assert(pre =~= Seq::<AssetV>::empty());
                assert(now =~= seq![assets@[0]@]);
                assert(json_items_of(now) == json_of_asset(assets@[0]@));
                assert(out@ =~= seq!['['] + json_items_of(now));
            } else {
                assert(pre.len() >= 1);
                lemma_items_snoc(pre, assets@[k as int]@);
                assert(out@ =~= seq!['['] + json_items_of(now));
            }
        }
        k = k + 1;
    }
    out.append("]");
    proof {
        assert(assets@.subrange(0, assets@.len() as int) =~= assets@);
        assert(out@ =~= json_of(views_of(assets@)));
    }
    out
}

} // verus!
