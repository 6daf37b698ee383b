//! Round-trip laws: the canonical wire text of a record parses back to
//! exactly that record.
use crate::encode::{
    bool_chars, dec_digits, esc_char, esc_seq, int_chars, json_text, kquoted, member_text, quoted,
};
use crate::json::{
    assign, complete, digit_val, digits_end, digits_value, empty_partial, hex_val, is_digit,
    is_hex, is_ws, key_age, key_company, key_crm_id, key_email, key_gender, key_id, key_is_active,
    key_name, lit_at, parse_jstring, parse_members, parse_number, parse_prim, parse_record,
    skip_ws, unescape, PartialRec, Prim,
};
use crate::record::{rec_model_valid, RecModel};
use vstd::prelude::*;

verus! {

/// A character that appears in a wire string exactly as itself.
pub open spec fn plain_char(c: char) -> bool {
    c != '"' && c != '\\' && c as u32 >= 0x20
}

pub open spec fn all_plain(t: Seq<char>) -> bool {
    forall|j: int| 0 <= j < t.len() ==> plain_char(t[j])
}

/// Characters of a piece standing at `i` can be read off the whole text.
proof fn lemma_lit_index(s: Seq<char>, i: int, p: Seq<char>)
    requires
        lit_at(s, i, p),
    ensures
        forall|m: int| #![trigger s[m]] i <= m < i + p.len() ==> s[m] == p[m - i],
{
    assert forall|m: int| i <= m < i + p.len() implies s[m] == p[m - i] by {
        assert(s.subrange(i, i + p.len())[m - i] == s[i + (m - i)]);
    }
}

/// A concatenation standing at `i` splits into its two parts.
proof fn lemma_lit_split(s: Seq<char>, i: int, a: Seq<char>, b: Seq<char>)
    requires
        lit_at(s, i, a + b),
    ensures
        lit_at(s, i, a),
        lit_at(s, i + a.len(), b),
{
    lemma_lit_index(s, i, a + b);
    assert(s.subrange(i, i + a.len()) =~= a);
    assert(s.subrange(i + a.len(), i + a.len() + b.len()) =~= b);
}

/// A plain text escapes to itself.
proof fn lemma_esc_plain(t: Seq<char>)
    requires
        all_plain(t),
    ensures
        esc_seq(t) == t,
    decreases t.len(),
{
    if t.len() == 0 {
        assert(esc_seq(t) =~= t);
    } else {
        assert(plain_char(t[0]));
        lemma_esc_plain(t.skip(1));
        assert(esc_seq(t) =~= seq![t[0]] + t.skip(1));
        assert(seq![t[0]] + t.skip(1) =~= t);
    }
}

/// An escaped text followed by a closing quote parses back to the text.
proof fn lemma_jstring_of_esc(s: Seq<char>, i: int, f: Seq<char>)
    requires
        0 <= i,
        lit_at(s, i, esc_seq(f) + seq!['"']),
    ensures
        parse_jstring(s, i) == Some((f, i + esc_seq(f).len() + 1)),
    decreases f.len(),
{
    broadcast use vstd::utf8::char_u32_cast;

    lemma_lit_index(s, i, esc_seq(f) + seq!['"']);
    if f.len() == 0 {
        assert(s[i] == '"');
        assert(parse_jstring(s, i) == Some((Seq::<char>::empty(), i + 1)));
        assert(Seq::<char>::empty() =~= f);
    } else {
        let c = f[0];
        let rest = f.skip(1);
        assert(esc_seq(f) == esc_char(c) + esc_seq(rest));
        assert((esc_char(c) + esc_seq(rest)) + seq!['"'] =~= esc_char(c) + (esc_seq(rest)
            + seq!['"']));
        lemma_lit_split(s, i, esc_char(c), esc_seq(rest) + seq!['"']);
        lemma_lit_index(s, i, esc_char(c));
        let i2 = i + esc_char(c).len();
        lemma_jstring_of_esc(s, i2, rest);
        assert(parse_jstring(s, i2) == Some((rest, i2 + esc_seq(rest).len() + 1)));
        if c == '"' || c == '\\' {
            assert(s[i] == '\\');
            assert(unescape(s[i + 1]) == Some(c));
            assert(parse_jstring(s, i) == Some((seq![c] + rest, i2 + esc_seq(rest).len() + 1)));
        } else if c == '\u{8}' || c == '\u{c}' || c == '\n' || c == '\r' || c == '\t' {
            assert(s[i] == '\\');
            assert(unescape(s[i + 1]) == Some(c));
            assert(parse_jstring(s, i) == Some((seq![c] + rest, i2 + esc_seq(rest).len() + 1)));
        } else if (c as u32) < 0x20 {
            let hi = c as u32 as int / 16;
            let lo = c as u32 as int % 16;
            assert(s[i] == '\\' && s[i + 1] == 'u' && s[i + 2] == '0' && s[i + 3] == '0');
            assert(unescape('u') is None);
            assert(0 <= hi < 2);
            assert(0 <= lo < 16);
            assert(s[i + 4] == ((48 + hi) as u8) as char);
            assert(is_hex(s[i + 4]) && hex_val(s[i + 4]) == hi);
            if lo < 10 {
                assert(s[i + 5] == ((48 + lo) as u8) as char);
                assert(is_hex(s[i + 5]) && hex_val(s[i + 5]) == lo);
            } else {
                assert(s[i + 5] == ((87 + lo) as u8) as char);
                assert(is_hex(s[i + 5]) && hex_val(s[i + 5]) == lo);
            }
            assert(16 * hex_val(s[i + 4]) + hex_val(s[i + 5]) == c as u32);
            let ch = ((16 * hex_val(s[i + 4]) + hex_val(s[i + 5])) as u8) as char;
            assert(ch as u32 == c as u32);
            vstd::utf8::char_u32_cast(ch, ch as u32);
            vstd::utf8::char_u32_cast(c, c as u32);
            assert(ch == c);
            assert(parse_jstring(s, i) == Some((seq![c] + rest, i2 + esc_seq(rest).len() + 1)));
        } else {
            assert(s[i] == c);
            assert(plain_char(c));
            assert(parse_jstring(s, i) == Some((seq![c] + rest, i2 + esc_seq(rest).len() + 1)));
        }
        assert(seq![c] + rest =~= f);
    }
}

/// Shape of a non-negative decimal rendering: nonempty, all digits, value
/// round trip, and a leading zero only for zero itself.
proof fn lemma_dec_digits_shape(n: int)
    requires
        n >= 0,
    ensures
        dec_digits(n).len() >= 1,
        forall|j: int| 0 <= j < dec_digits(n).len() ==> is_digit(#[trigger] dec_digits(n)[j]),
        digits_value(dec_digits(n)) == n,
        dec_digits(n)[0] == '0' ==> n == 0,
    decreases n,
{
    if n < 10 {
        let c = ((48 + n) as u8) as char;
        assert(dec_digits(n) == seq![c]);
        assert(c as u32 == 48 + n);
        assert(is_digit(c));
        assert(seq![c].drop_last() =~= Seq::<char>::empty());
        assert(digits_value(Seq::<char>::empty()) == 0);
        assert(digits_value(dec_digits(n)) == digit_val(c));
        assert('0' as u32 == 48);
        if c == '0' {
            assert(c as u32 == 48);
        }
    } else {
        lemma_dec_digits_shape(n / 10);
        let pre = dec_digits(n / 10);
        let c = ((48 + n % 10) as u8) as char;
        assert(c as u32 == 48 + n % 10);
        assert(dec_digits(n) == pre + seq![c]);
        assert forall|j: int| 0 <= j < dec_digits(n).len() implies is_digit(
            #[trigger] dec_digits(n)[j],
        ) by {
            if j < pre.len() {
                assert(dec_digits(n)[j] == pre[j]);
            } else {
                assert(dec_digits(n)[j] == c);
            }
        }
        assert((pre + seq![c]).drop_last() =~= pre);
        assert((pre + seq![c]).last() == c);
        assert(digits_value(dec_digits(n)) == digits_value(pre) * 10 + digit_val(c));
        assert(digits_value(dec_digits(n)) == (n / 10) * 10 + n % 10);
        assert(dec_digits(n)[0] == pre[0]);
    }
}

/// The digit run of a placed digit sequence ends exactly after it.
proof fn lemma_digits_end_at(s: Seq<char>, i: int, d: Seq<char>)
    requires
        0 <= i,
        lit_at(s, i, d),
        forall|j: int| 0 <= j < d.len() ==> is_digit(#[trigger] d[j]),
        i + d.len() == s.len() || !is_digit(s[i + d.len()]),
    ensures
        digits_end(s, i) == i + d.len(),
    decreases d.len(),
{
    lemma_lit_index(s, i, d);
    if d.len() == 0 {
    } else {
        assert(s[i] == d[0]);
        assert(is_digit(s[i]));
        assert(d =~= d.subrange(0, 1) + d.skip(1));
        lemma_lit_split(s, i, d.subrange(0, 1), d.skip(1));
        assert forall|j: int| 0 <= j < d.skip(1).len() implies is_digit(#[trigger] d.skip(1)[j]) by {
            assert(d.skip(1)[j] == d[j + 1]);
        }
        lemma_digits_end_at(s, i + 1, d.skip(1));
    }
}

/// A placed integer literal, with no digit, point or exponent marker after
/// it, parses as exactly that integer.
proof fn lemma_number_at(s: Seq<char>, i: int, n: int)
    requires
        0 <= i,
        lit_at(s, i, int_chars(n)),
        i + int_chars(n).len() < s.len(),
        !is_digit(s[i + int_chars(n).len()]),
        s[i + int_chars(n).len()] != '.',
        s[i + int_chars(n).len()] != 'e',
        s[i + int_chars(n).len()] != 'E',
    ensures
        parse_number(s, i) == Some((Prim::Int(n), i + int_chars(n).len())),
{
    lemma_lit_index(s, i, int_chars(n));
    if n < 0 {
        assert(int_chars(n) == seq!['-'] + dec_digits(-n));
        lemma_dec_digits_shape(-n);
        assert(s[i] == '-');
        lemma_lit_split(s, i, seq!['-'], dec_digits(-n));
        lemma_digits_end_at(s, i + 1, dec_digits(-n));
        let de = i + 1 + dec_digits(-n).len();
        assert(digits_end(s, i + 1) == de);
        assert(s.subrange(i + 1, de) == dec_digits(-n));
        assert(digits_value(s.subrange(i + 1, de)) == -n);
        assert(s[i + 1] == dec_digits(-n)[0]);
        if s[i + 1] == '0' {
            assert(-n == 0);
            assert(false);
        }
        assert(parse_number(s, i) == Some((Prim::Int(n), de)));
    } else {
        assert(int_chars(n) == dec_digits(n));
        lemma_dec_digits_shape(n);
        assert(s[i] == dec_digits(n)[0]);
        assert(is_digit(s[i]));
        assert('-' as u32 == 45);
        assert(s[i] != '-');
        lemma_digits_end_at(s, i, dec_digits(n));
        let de = i + dec_digits(n).len();
        assert(s.subrange(i, de) == dec_digits(n));
        assert(digits_value(s.subrange(i, de)) == n);
        if s[i] == '0' && de > i + 1 {
            assert(n == 0);
            assert(dec_digits(0).len() == 1);
            assert(false);
        }
        assert(parse_number(s, i) == Some((Prim::Int(n), de)));
    }
}

/// A placed quoted value parses as a string primitive.
proof fn lemma_prim_string_at(s: Seq<char>, i: int, fld: Seq<char>)
    requires
        0 <= i,
        lit_at(s, i, quoted(fld)),
    ensures
        parse_prim(s, i) == Some((Prim::Str(fld), i + quoted(fld).len())),
{
    assert(quoted(fld) =~= seq!['"'] + (esc_seq(fld) + seq!['"']));
    lemma_lit_split(s, i, seq!['"'], esc_seq(fld) + seq!['"']);
    lemma_lit_index(s, i, seq!['"']);
    assert(s[i] == '"');
    lemma_jstring_of_esc(s, i + 1, fld);
}

/// A placed boolean literal parses as a boolean primitive.
proof fn lemma_prim_bool_at(s: Seq<char>, i: int, b: bool)
    requires
        0 <= i,
        lit_at(s, i, bool_chars(b)),
    ensures
        parse_prim(s, i) == Some((Prim::Boolean(b), i + bool_chars(b).len())),
{
    lemma_lit_index(s, i, bool_chars(b));
    if b {
        assert(s[i] == 't' && s[i + 1] == 'r' && s[i + 2] == 'u' && s[i + 3] == 'e');
        assert(s.subrange(i, i + 4) =~= seq!['t', 'r', 'u', 'e']);
    } else {
        assert(s[i] == 'f' && s[i + 1] == 'a' && s[i + 2] == 'l' && s[i + 3] == 's' && s[i + 4]
            == 'e');
        assert(s.subrange(i, i + 5) =~= seq!['f', 'a', 'l', 's', 'e']);
    }
}

/// A placed integer literal parses as a number primitive.
proof fn lemma_prim_int_at(s: Seq<char>, i: int, n: int)
    requires
        0 <= i,
        lit_at(s, i, int_chars(n)),
        i + int_chars(n).len() < s.len(),
        s[i + int_chars(n).len()] == ',' || s[i + int_chars(n).len()] == '}',
    ensures
        parse_prim(s, i) == Some((Prim::Int(n), i + int_chars(n).len())),
{
    let a = s[i + int_chars(n).len()];
    assert(',' as u32 == 44 && '}' as u32 == 125);
    assert(!is_digit(a) && a != '.' && a != 'e' && a != 'E');
    lemma_number_at(s, i, n);
    lemma_lit_index(s, i, int_chars(n));
    if n < 0 {
        assert(s[i] == (seq!['-'] + dec_digits(-n))[0]);
        assert(s[i] == '-');
    } else {
        lemma_dec_digits_shape(n);
        assert(s[i] == dec_digits(n)[0]);
        assert(is_digit(s[i]));
        assert('"' as u32 == 34 && 't' as u32 == 116 && 'f' as u32 == 102 && 'n' as u32 == 110);
        assert(s[i] != '"' && s[i] != 't' && s[i] != 'f' && s[i] != 'n');
    }
}

/// One placed member, followed by a comma or the closing brace, advances
/// `parse_members` by exactly one step.
#[verifier::rlimit(100)]
#[verifier::spinoff_prover]
proof fn lemma_member_at(
    s: Seq<char>,
    i: int,
    key: Seq<char>,
    vtext: Seq<char>,
    p: Prim,
    acc: PartialRec,
    acc2: PartialRec,
)
    requires
        0 <= i,
        all_plain(key),
        lit_at(s, i, member_text(key, vtext)),
        vtext.len() > 0,
        !is_ws(vtext[0]),
        parse_prim(s, i + key.len() + 3, ) == Some((p, i + key.len() + 3 + vtext.len())),
        assign(acc, key, p) == Some(acc2),
        i + key.len() + 3 + vtext.len() < s.len(),
        s[i + key.len() + 3 + vtext.len()] == ',' || s[i + key.len() + 3 + vtext.len()] == '}',
        s[i + key.len() + 3 + vtext.len()] == ',' ==> i + key.len() + 4 + vtext.len() < s.len()
            && !is_ws(s[i + key.len() + 4 + vtext.len()]),
    ensures
        s[i + key.len() + 3 + vtext.len()] == ',' ==> parse_members(s, i, acc) == parse_members(
            s,
            i + key.len() + 4 + vtext.len(),
            acc2,
        ),
        s[i + key.len() + 3 + vtext.len()] == '}' ==> parse_members(s, i, acc) == Some(
            (acc2, i + key.len() + 3 + vtext.len()),
        ),
{
    let end = i + key.len() + 3 + vtext.len();
    assert(member_text(key, vtext) =~= seq!['"'] + ((key + seq!['"']) + (seq![':'] + vtext)));
    lemma_lit_split(s, i, seq!['"'], (key + seq!['"']) + (seq![':'] + vtext));
    lemma_lit_index(s, i, seq!['"']);
    assert(s[i] == '"');
    lemma_lit_split(s, i + 1, key + seq!['"'], seq![':'] + vtext);
    lemma_lit_index(s, i + 1 + key.len() + 1, seq![':'] + vtext);
    lemma_esc_plain(key);
    assert(esc_seq(key) + seq!['"'] == key + seq!['"']);
    lemma_jstring_of_esc(s, i + 1, key);
    assert(parse_jstring(s, i + 1) == Some((key, i + key.len() + 2)));
    let j = i + key.len() + 2;
    assert(s[j] == ':');
    assert(':' as u32 == 58);
    assert(!is_ws(s[j]));
    assert(skip_ws(s, j) == j);
    assert(s[j + 1] == vtext[0]);
    assert(skip_ws(s, j + 1) == j + 1);
    assert(skip_ws(s, end) == end) by {
        assert(',' as u32 == 44 && '}' as u32 == 125);
        assert(!is_ws(s[end]));
    }
    if s[end] == ',' {
        assert(skip_ws(s, end + 1) == end + 1);
        assert(parse_members(s, i, acc) == parse_members(s, end + 1, acc2));
    } else {
        assert(parse_members(s, i, acc) == Some((acc2, end)));
    }
}

proof fn lemma_keys_plain()
    ensures
        all_plain(key_id()),
        all_plain(key_crm_id()),
        all_plain(key_is_active()),
        all_plain(key_age()),
        all_plain(key_name()),
        all_plain(key_company()),
        all_plain(key_gender()),
        all_plain(key_email()),
{
    assert forall|j: int| 0 <= j < key_id().len() implies plain_char(#[trigger] key_id()[j]) by {
        if j == 0 {
            assert(key_id()[0] == '_');
        } else if j == 1 {
            assert(key_id()[1] == 'i');
        } else {
            assert(key_id()[2] == 'd');
        }
    }
    assert forall|j: int| 0 <= j < key_crm_id().len() implies plain_char(
        #[trigger] key_crm_id()[j],
    ) by {
        if j == 0 {
            assert(key_crm_id()[0] == 'c');
        } else if j == 1 {
            assert(key_crm_id()[1] == 'r');
        } else if j == 2 {
            assert(key_crm_id()[2] == 'm');
        } else if j == 3 {
            assert(key_crm_id()[3] == 'I');
        } else {
            assert(key_crm_id()[4] == 'd');
        }
    }
    assert forall|j: int| 0 <= j < key_is_active().len() implies plain_char(
        #[trigger] key_is_active()[j],
    ) by {
        if j == 0 {
            assert(key_is_active()[0] == 'i');
        } else if j == 1 {
            assert(key_is_active()[1] == 's');
        } else if j == 2 {
            assert(key_is_active()[2] == 'A');
        } else if j == 3 {
            assert(key_is_active()[3] == 'c');
        } else if j == 4 {
            assert(key_is_active()[4] == 't');
        } else if j == 5 {
            assert(key_is_active()[5] == 'i');
        } else if j == 6 {
            assert(key_is_active()[6] == 'v');
        } else {
            assert(key_is_active()[7] == 'e');
        }
    }
    assert forall|j: int| 0 <= j < key_age().len() implies plain_char(#[trigger] key_age()[j]) by {
        if j == 0 {
            assert(key_age()[0] == 'a');
        } else if j == 1 {
            assert(key_age()[1] == 'g');
        } else {
            assert(key_age()[2] == 'e');
        }
    }
    assert forall|j: int| 0 <= j < key_name().len() implies plain_char(#[trigger] key_name()[j]) by {
        if j == 0 {
            assert(key_name()[0] == 'n');
        } else if j == 1 {
            assert(key_name()[1] == 'a');
        } else if j == 2 {
            assert(key_name()[2] == 'm');
        } else {
            assert(key_name()[3] == 'e');
        }
    }
    assert forall|j: int| 0 <= j < key_company().len() implies plain_char(
        #[trigger] key_company()[j],
    ) by {
        if j == 0 {
            assert(key_company()[0] == 'c');
        } else if j == 1 {
            assert(key_company()[1] == 'o');
        } else if j == 2 {
            assert(key_company()[2] == 'm');
        } else if j == 3 {
            assert(key_company()[3] == 'p');
        } else if j == 4 {
            assert(key_company()[4] == 'a');
        } else if j == 5 {
            assert(key_company()[5] == 'n');
        } else {
            assert(key_company()[6] == 'y');
        }
    }
    assert forall|j: int| 0 <= j < key_gender().len() implies plain_char(
        #[trigger] key_gender()[j],
    ) by {
        if j == 0 {
            assert(key_gender()[0] == 'g');
        } else if j == 1 {
            assert(key_gender()[1] == 'e');
        } else if j == 2 {
            assert(key_gender()[2] == 'n');
        } else if j == 3 {
            assert(key_gender()[3] == 'd');
        } else if j == 4 {
            assert(key_gender()[4] == 'e');
        } else {
            assert(key_gender()[5] == 'r');
        }
    }
    assert forall|j: int| 0 <= j < key_email().len() implies plain_char(
        #[trigger] key_email()[j],
    ) by {
        if j == 0 {
            assert(key_email()[0] == 'e');
        } else if j == 1 {
            assert(key_email()[1] == 'm');
        } else if j == 2 {
            assert(key_email()[2] == 'a');
        } else if j == 3 {
            assert(key_email()[3] == 'i');
        } else {
            assert(key_email()[4] == 'l');
        }
    }
}

proof fn lemma_quoted_head(f: Seq<char>)
    ensures
        quoted(f).len() >= 2,
        quoted(f)[0] == '"',
        !is_ws(quoted(f)[0]),
{
    assert((seq!['"'] + esc_seq(f))[0] == '"');
    assert(quoted(f)[0] == (seq!['"'] + esc_seq(f))[0]);
}

proof fn lemma_bool_head(b: bool)
    ensures
        bool_chars(b).len() >= 4,
        !is_ws(bool_chars(b)[0]),
        bool_chars(b)[0] != '"',
{
    if b {
        assert(bool_chars(b)[0] == 't');
    } else {
        assert(bool_chars(b)[0] == 'f');
    }
}

proof fn lemma_int_head(n: int)
    ensures
        int_chars(n).len() >= 1,
        !is_ws(int_chars(n)[0]),
        int_chars(n)[0] != '"',
{
    if n < 0 {
        assert((seq!['-'] + dec_digits(-n))[0] == '-');
        assert(int_chars(n)[0] == '-');
    } else {
        lemma_dec_digits_shape(n);
        let d0 = int_chars(n)[0];
        assert(is_digit(d0));
        assert(' ' as u32 == 32 && '\n' as u32 == 10 && '\r' as u32 == 13 && '\t' as u32 == 9
            && '"' as u32 == 34);
        if is_ws(d0) || d0 == '"' {
            assert(48 <= d0 as u32 <= 57);
            assert(false);
        }
    }
}

proof fn lemma_member_head(k: Seq<char>, v: Seq<char>)
    ensures
        member_text(k, v).len() == k.len() + 3 + v.len(),
        member_text(k, v)[0] == '"',
{
    assert((seq!['"'] + k)[0] == '"');
    assert(kquoted(k)[0] == (seq!['"'] + k)[0]);
    assert((kquoted(k) + seq![':'])[0] == kquoted(k)[0]);
    assert(member_text(k, v)[0] == (kquoted(k) + seq![':'])[0]);
}

/// The attributes gathered from a record's own wire text.
pub open spec fn full_partial(m: RecModel) -> PartialRec {
    PartialRec {
        id: Some(m.id),
        crm_id: Some(m.crm_id),
        is_active: Some(m.is_active),
        age: Some(m.age),
        name: Some(m.name),
        company: Some(m.company),
        gender: Some(m.gender),
        email: Some(m.email),
    }
}
/// The first character of a placed piece.
proof fn lemma_lit_head(s: Seq<char>, i: int, p: Seq<char>)
    requires
        lit_at(s, i, p),
        p.len() > 0,
    ensures
        s[i] == p[0],
{
    assert(s.subrange(i, i + p.len())[0] == s[i + 0]);
}

/// One placed string-valued member advances `parse_members` by one step.
proof fn lemma_member_string_at(
    s: Seq<char>,
    i: int,
    key: Seq<char>,
    fld: Seq<char>,
    acc: PartialRec,
    acc2: PartialRec,
)
    requires
        0 <= i,
        all_plain(key),
        lit_at(s, i, member_text(key, quoted(fld))),
        i + member_text(key, quoted(fld)).len() < s.len(),
        s[i + member_text(key, quoted(fld)).len()] == ',' || s[i + member_text(
            key,
            quoted(fld),
        ).len()] == '}',
        s[i + member_text(key, quoted(fld)).len()] == ',' ==> i + member_text(
            key,
            quoted(fld),
        ).len() + 1 < s.len() && s[i + member_text(key, quoted(fld)).len() + 1] == '"',
        assign(acc, key, Prim::Str(fld)) == Some(acc2),
    ensures
        s[i + member_text(key, quoted(fld)).len()] == ',' ==> parse_members(s, i, acc)
            == parse_members(s, i + member_text(key, quoted(fld)).len() + 1, acc2),
        s[i + member_text(key, quoted(fld)).len()] == '}' ==> parse_members(s, i, acc) == Some(
            (acc2, i + member_text(key, quoted(fld)).len()),
        ),
{
    lemma_lit_split(s, i, kquoted(key) + seq![':'], quoted(fld));
    lemma_prim_string_at(s, i + key.len() + 3, fld);
    lemma_quoted_head(fld);
    lemma_member_at(s, i, key, quoted(fld), Prim::Str(fld), acc, acc2);
}

/// One placed boolean-valued member advances `parse_members` by one step.
proof fn lemma_member_bool_at(
    s: Seq<char>,
    i: int,
    key: Seq<char>,
    b: bool,
    acc: PartialRec,
    acc2: PartialRec,
)
    requires
        0 <= i,
        all_plain(key),
        lit_at(s, i, member_text(key, bool_chars(b))),
        i + member_text(key, bool_chars(b)).len() < s.len(),
        s[i + member_text(key, bool_chars(b)).len()] == ',' || s[i + member_text(
            key,
            bool_chars(b),
        ).len()] == '}',
        s[i + member_text(key, bool_chars(b)).len()] == ',' ==> i + member_text(
            key,
            bool_chars(b),
        ).len() + 1 < s.len() && s[i + member_text(key, bool_chars(b)).len() + 1] == '"',
        assign(acc, key, Prim::Boolean(b)) == Some(acc2),
    ensures
        s[i + member_text(key, bool_chars(b)).len()] == ',' ==> parse_members(s, i, acc)
            == parse_members(s, i + member_text(key, bool_chars(b)).len() + 1, acc2),
        s[i + member_text(key, bool_chars(b)).len()] == '}' ==> parse_members(s, i, acc) == Some(
            (acc2, i + member_text(key, bool_chars(b)).len()),
        ),
{
    lemma_lit_split(s, i, kquoted(key) + seq![':'], bool_chars(b));
    lemma_prim_bool_at(s, i + key.len() + 3, b);
    lemma_bool_head(b);
    lemma_member_at(s, i, key, bool_chars(b), Prim::Boolean(b), acc, acc2);
}

/// One placed integer-valued member advances `parse_members` by one step.
proof fn lemma_member_int_at(
    s: Seq<char>,
    i: int,
    key: Seq<char>,
    n: int,
    acc: PartialRec,
    acc2: PartialRec,
)
    requires
        0 <= i,
        all_plain(key),
        lit_at(s, i, member_text(key, int_chars(n))),
        i + member_text(key, int_chars(n)).len() < s.len(),
        s[i + member_text(key, int_chars(n)).len()] == ',' || s[i + member_text(
            key,
            int_chars(n),
        ).len()] == '}',
        s[i + member_text(key, int_chars(n)).len()] == ',' ==> i + member_text(
            key,
            int_chars(n),
        ).len() + 1 < s.len() && s[i + member_text(key, int_chars(n)).len() + 1] == '"',
        assign(acc, key, Prim::Int(n)) == Some(acc2),
    ensures
        s[i + member_text(key, int_chars(n)).len()] == ',' ==> parse_members(s, i, acc)
            == parse_members(s, i + member_text(key, int_chars(n)).len() + 1, acc2),
        s[i + member_text(key, int_chars(n)).len()] == '}' ==> parse_members(s, i, acc) == Some(
            (acc2, i + member_text(key, int_chars(n)).len()),
        ),
{
    lemma_lit_split(s, i, kquoted(key) + seq![':'], int_chars(n));
    lemma_prim_int_at(s, i + key.len() + 3, n);
    lemma_int_head(n);
    lemma_member_at(s, i, key, int_chars(n), Prim::Int(n), acc, acc2);
}

/// Walking the last four members, placed at `i` and ending with the closing
/// brace, gathers their attributes and stops at the brace.
#[verifier::rlimit(100)]
#[verifier::spinoff_prover]
proof fn lemma_members_back(s: Seq<char>, i: int, m: RecModel, acc: PartialRec)
    requires
        rec_model_valid(m),
        1 <= i,
        acc.name is None,
        acc.company is None,
        acc.gender is None,
        acc.email is None,
        lit_at(
            s,
            i,
            member_text(key_name(), quoted(m.name)) + (seq![','] + (member_text(
                key_company(),
                quoted(m.company),
            ) + (seq![','] + (member_text(key_gender(), quoted(m.gender)) + (seq![','] + (
            member_text(key_email(), quoted(m.email)) + seq!['}'])))))),
        ),
    ensures
        ({
            let e = i + member_text(key_name(), quoted(m.name)).len() + member_text(
                key_company(),
                quoted(m.company),
            ).len() + member_text(key_gender(), quoted(m.gender)).len() + member_text(
                key_email(),
                quoted(m.email),
            ).len() + 3;
            parse_members(s, i, acc) == Some(
                (
                    PartialRec {
                        name: Some(m.name),
                        company: Some(m.company),
                        gender: Some(m.gender),
                        email: Some(m.email),
                        ..acc
                    },
                    e,
                ),
            ) && s[e] == '}'
        }),
{
    lemma_keys_plain();
    let t5 = member_text(key_name(), quoted(m.name));
    let t6 = member_text(key_company(), quoted(m.company));
    let t7 = member_text(key_gender(), quoted(m.gender));
    let t8 = member_text(key_email(), quoted(m.email));
    let r8 = t8 + seq!['}'];
    let r7 = t7 + (seq![','] + r8);
    let r6 = t6 + (seq![','] + r7);
    let i5 = i;
    lemma_lit_split(s, i5, t5, seq![','] + r6);
    lemma_lit_split(s, i5 + t5.len(), seq![','], r6);
    lemma_lit_head(s, i5 + t5.len(), seq![',']);
    let i6 = i5 + t5.len() + 1;
    lemma_lit_split(s, i6, t6, seq![','] + r7);
    lemma_lit_split(s, i6 + t6.len(), seq![','], r7);
    lemma_lit_head(s, i6 + t6.len(), seq![',']);
    let i7 = i6 + t6.len() + 1;
    lemma_lit_split(s, i7, t7, seq![','] + r8);
    lemma_lit_split(s, i7 + t7.len(), seq![','], r8);
    lemma_lit_head(s, i7 + t7.len(), seq![',']);
    let i8 = i7 + t7.len() + 1;
    lemma_lit_split(s, i8, t8, seq!['}']);
    lemma_lit_head(s, i8 + t8.len(), seq!['}']);
    let e = i8 + t8.len();
    lemma_member_head(key_name(), quoted(m.name));
    lemma_member_head(key_company(), quoted(m.company));
    lemma_member_head(key_gender(), quoted(m.gender));
    lemma_member_head(key_email(), quoted(m.email));
    lemma_lit_head(s, i6, t6);
    lemma_lit_head(s, i7, t7);
    lemma_lit_head(s, i8, t8);
    assert(key_id().len() == 3 && key_crm_id().len() == 5 && key_is_active().len() == 8
        && key_age().len() == 3 && key_name().len() == 4 && key_company().len() == 7
        && key_gender().len() == 6 && key_email().len() == 5);
    assert(key_email() != key_crm_id()) by {
        assert(key_email()[0] == 'e' && key_crm_id()[0] == 'c');
    }
    let a5 = PartialRec { name: Some(m.name), ..acc };
    let a6 = PartialRec { company: Some(m.company), ..a5 };
    let a7 = PartialRec { gender: Some(m.gender), ..a6 };
    let a8 = PartialRec { email: Some(m.email), ..a7 };
    assert(assign(acc, key_name(), Prim::Str(m.name)) == Some(a5));
    assert(assign(a5, key_company(), Prim::Str(m.company)) == Some(a6));
    assert(assign(a6, key_gender(), Prim::Str(m.gender)) == Some(a7));
    assert(assign(a7, key_email(), Prim::Str(m.email)) == Some(a8));
    lemma_member_string_at(s, i5, key_name(), m.name, acc, a5);
    lemma_member_string_at(s, i6, key_company(), m.company, a5, a6);
    lemma_member_string_at(s, i7, key_gender(), m.gender, a6, a7);
    lemma_member_string_at(s, i8, key_email(), m.email, a7, a8);
    assert(parse_members(s, i5, acc) == Some((a8, e)));
}

/// Walking members three and four (the flag and the number), placed at `i`
/// and followed by the last four members, gathers everything that remains.
#[verifier::rlimit(100)]
#[verifier::spinoff_prover]
proof fn lemma_members_mid(s: Seq<char>, i: int, m: RecModel, acc: PartialRec)
    requires
        rec_model_valid(m),
        1 <= i,
        acc.is_active is None,
        acc.age is None,
        acc.name is None,
        acc.company is None,
        acc.gender is None,
        acc.email is None,
        lit_at(
            s,
            i,
            member_text(key_is_active(), bool_chars(m.is_active)) + (seq![','] + (member_text(
                key_age(),
                int_chars(m.age),
            ) + (seq![','] + (member_text(key_name(), quoted(m.name)) + (seq![','] + (member_text(
                key_company(),
                quoted(m.company),
            ) + (seq![','] + (member_text(key_gender(), quoted(m.gender)) + (seq![','] + (
            member_text(key_email(), quoted(m.email)) + seq!['}'])))))))))),
        ),
    ensures
        ({
            let e = i + member_text(key_is_active(), bool_chars(m.is_active)).len() + member_text(
                key_age(),
                int_chars(m.age),
            ).len() + member_text(key_name(), quoted(m.name)).len() + member_text(
                key_company(),
                quoted(m.company),
            ).len() + member_text(key_gender(), quoted(m.gender)).len() + member_text(
                key_email(),
                quoted(m.email),
            ).len() + 5;
            parse_members(s, i, acc) == Some(
                (
                    PartialRec {
                        is_active: Some(m.is_active),
                        age: Some(m.age),
                        name: Some(m.name),
                        company: Some(m.company),
                        gender: Some(m.gender),
                        email: Some(m.email),
                        ..acc
                    },
                    e,
                ),
            ) && s[e] == '}'
        }),
{
    lemma_keys_plain();
    let t3 = member_text(key_is_active(), bool_chars(m.is_active));
    let t4 = member_text(key_age(), int_chars(m.age));
    let t5 = member_text(key_name(), quoted(m.name));
    let t6 = member_text(key_company(), quoted(m.company));
    let t7 = member_text(key_gender(), quoted(m.gender));
    let t8 = member_text(key_email(), quoted(m.email));
    let r8 = t8 + seq!['}'];
    let r7 = t7 + (seq![','] + r8);
    let r6 = t6 + (seq![','] + r7);
    let r5 = t5 + (seq![','] + r6);
    let r4 = t4 + (seq![','] + r5);
    let i3 = i;
    lemma_lit_split(s, i3, t3, seq![','] + r4);
    lemma_lit_split(s, i3 + t3.len(), seq![','], r4);
    lemma_lit_head(s, i3 + t3.len(), seq![',']);
    let i4 = i3 + t3.len() + 1;
    lemma_lit_split(s, i4, t4, seq![','] + r5);
    lemma_lit_split(s, i4 + t4.len(), seq![','], r5);
    lemma_lit_head(s, i4 + t4.len(), seq![',']);
    let i5 = i4 + t4.len() + 1;
    lemma_lit_split(s, i5, t5, seq![','] + r6);
    lemma_member_head(key_is_active(), bool_chars(m.is_active));
    lemma_member_head(key_age(), int_chars(m.age));
    lemma_member_head(key_name(), quoted(m.name));
    lemma_lit_head(s, i3, t3);
    lemma_lit_head(s, i4, t4);
    lemma_lit_head(s, i5, t5);
    assert(key_id().len() == 3 && key_crm_id().len() == 5 && key_is_active().len() == 8
        && key_age().len() == 3 && key_name().len() == 4 && key_company().len() == 7
        && key_gender().len() == 6 && key_email().len() == 5);
    assert(key_age() != key_id()) by {
        assert(key_age()[0] == 'a' && key_id()[0] == '_');
    }
    let a3 = PartialRec { is_active: Some(m.is_active), ..acc };
    let a4 = PartialRec { age: Some(m.age), ..a3 };
    assert(assign(acc, key_is_active(), Prim::Boolean(m.is_active)) == Some(a3));
    assert(assign(a3, key_age(), Prim::Int(m.age)) == Some(a4));
    lemma_member_bool_at(s, i3, key_is_active(), m.is_active, acc, a3);
    lemma_member_int_at(s, i4, key_age(), m.age, a3, a4);
    lemma_members_back(s, i5, m, a4);
    assert(parse_members(s, i3, acc) == Some(
        (
            PartialRec {
                name: Some(m.name),
                company: Some(m.company),
                gender: Some(m.gender),
                email: Some(m.email),
                ..a4
            },
            i5 + t5.len() + t6.len() + t7.len() + t8.len() + 3,
        ),
    ));
}

/// Walking all eight members, placed at `i` and ending with the closing
/// brace, gathers every attribute.
#[verifier::rlimit(100)]
#[verifier::spinoff_prover]
proof fn lemma_members_front(s: Seq<char>, i: int, m: RecModel, acc: PartialRec)
    requires
        rec_model_valid(m),
        1 <= i,
        acc.id is None,
        acc.crm_id is None,
        acc.is_active is None,
        acc.age is None,
        acc.name is None,
        acc.company is None,
        acc.gender is None,
        acc.email is None,
        lit_at(
            s,
            i,
            member_text(key_id(), quoted(m.id)) + (seq![','] + (member_text(
                key_crm_id(),
                quoted(m.crm_id),
            ) + (seq![','] + (member_text(key_is_active(), bool_chars(m.is_active)) + (seq![','] + (
            member_text(key_age(), int_chars(m.age)) + (seq![','] + (member_text(
                key_name(),
                quoted(m.name),
            ) + (seq![','] + (member_text(key_company(), quoted(m.company)) + (seq![','] + (
            member_text(key_gender(), quoted(m.gender)) + (seq![','] + (member_text(
                key_email(),
                quoted(m.email),
            ) + seq!['}'])))))))))))))),
        ),
    ensures
        ({
            let e = i + member_text(key_id(), quoted(m.id)).len() + member_text(
                key_crm_id(),
                quoted(m.crm_id),
            ).len() + member_text(key_is_active(), bool_chars(m.is_active)).len() + member_text(
                key_age(),
                int_chars(m.age),
            ).len() + member_text(key_name(), quoted(m.name)).len() + member_text(
                key_company(),
                quoted(m.company),
            ).len() + member_text(key_gender(), quoted(m.gender)).len() + member_text(
                key_email(),
                quoted(m.email),
            ).len() + 7;
            parse_members(s, i, acc) == Some(
                (
                    PartialRec {
                        id: Some(m.id),
                        crm_id: Some(m.crm_id),
                        is_active: Some(m.is_active),
                        age: Some(m.age),
                        name: Some(m.name),
                        company: Some(m.company),
                        gender: Some(m.gender),
                        email: Some(m.email),
                        ..acc
                    },
                    e,
                ),
            ) && s[e] == '}'
        }),
{
    lemma_keys_plain();
    let t1 = member_text(key_id(), quoted(m.id));
    let t2 = member_text(key_crm_id(), quoted(m.crm_id));
    let t3 = member_text(key_is_active(), bool_chars(m.is_active));
    let t4 = member_text(key_age(), int_chars(m.age));
    let t5 = member_text(key_name(), quoted(m.name));
    let t6 = member_text(key_company(), quoted(m.company));
    let t7 = member_text(key_gender(), quoted(m.gender));
    let t8 = member_text(key_email(), quoted(m.email));
    let r8 = t8 + seq!['}'];
    let r7 = t7 + (seq![','] + r8);
    let r6 = t6 + (seq![','] + r7);
    let r5 = t5 + (seq![','] + r6);
    let r4 = t4 + (seq![','] + r5);
    let r3 = t3 + (seq![','] + r4);
    let i1 = i;
    lemma_lit_split(s, i1, t1, seq![','] + (t2 + (seq![','] + r3)));
    lemma_lit_split(s, i1 + t1.len(), seq![','], t2 + (seq![','] + r3));
    lemma_lit_head(s, i1 + t1.len(), seq![',']);
    let i2 = i1 + t1.len() + 1;
    lemma_lit_split(s, i2, t2, seq![','] + r3);
    lemma_lit_split(s, i2 + t2.len(), seq![','], r3);
    lemma_lit_head(s, i2 + t2.len(), seq![',']);
    let i3 = i2 + t2.len() + 1;
    lemma_lit_split(s, i3, t3, seq![','] + r4);
    lemma_member_head(key_id(), quoted(m.id));
    lemma_member_head(key_crm_id(), quoted(m.crm_id));
    lemma_member_head(key_is_active(), bool_chars(m.is_active));
    lemma_lit_head(s, i1, t1);
    lemma_lit_head(s, i2, t2);
    lemma_lit_head(s, i3, t3);
    assert(key_id().len() == 3 && key_crm_id().len() == 5 && key_is_active().len() == 8
        && key_age().len() == 3 && key_name().len() == 4 && key_company().len() == 7
        && key_gender().len() == 6 && key_email().len() == 5);
    let a1 = PartialRec { id: Some(m.id), ..acc };
    let a2 = PartialRec { crm_id: Some(m.crm_id), ..a1 };
    assert(assign(acc, key_id(), Prim::Str(m.id)) == Some(a1));
    assert(assign(a1, key_crm_id(), Prim::Str(m.crm_id)) == Some(a2));
    lemma_member_string_at(s, i1, key_id(), m.id, acc, a1);
    lemma_member_string_at(s, i2, key_crm_id(), m.crm_id, a1, a2);
    lemma_members_mid(s, i3, m, a2);
}

/// Walking the members of a record's canonical wire text gathers every
/// attribute and stops at the closing brace.
#[verifier::rlimit(100)]
#[verifier::spinoff_prover]
proof fn lemma_members_of_text(m: RecModel)
    requires
        rec_model_valid(m),
    ensures
        json_text(m).len() >= 3,
        parse_members(json_text(m), 1, empty_partial()) == Some(
            (full_partial(m), json_text(m).len() - 1),
        ),
{
    let s = json_text(m);
    let t1 = member_text(key_id(), quoted(m.id));
    let t2 = member_text(key_crm_id(), quoted(m.crm_id));
    let t3 = member_text(key_is_active(), bool_chars(m.is_active));
    let t4 = member_text(key_age(), int_chars(m.age));
    let t5 = member_text(key_name(), quoted(m.name));
    let t6 = member_text(key_company(), quoted(m.company));
    let t7 = member_text(key_gender(), quoted(m.gender));
    let t8 = member_text(key_email(), quoted(m.email));
    let r8 = t8 + seq!['}'];
    let r7 = t7 + (seq![','] + r8);
    let r6 = t6 + (seq![','] + r7);
    let r5 = t5 + (seq![','] + r6);
    let r4 = t4 + (seq![','] + r5);
    let r3 = t3 + (seq![','] + r4);
    let r2 = t2 + (seq![','] + r3);
    let r1 = t1 + (seq![','] + r2);
    assert(s == seq!['{'] + r1);
    assert(s.subrange(0, s.len() as int) =~= s);
    assert(lit_at(s, 0, seq!['{'] + r1));
    lemma_lit_split(s, 0, seq!['{'], r1);
    lemma_members_front(s, 1, m, empty_partial());
}

/// The outer shape of the canonical wire text: an object in braces, opening
/// on the first attribute name.
proof fn lemma_text_shape(m: RecModel)
    ensures
        json_text(m).len() >= 3,
        json_text(m)[0] == '{',
        json_text(m)[1] == '"',
        json_text(m)[json_text(m).len() - 1] == '}',
{
    let s = json_text(m);
    let t1 = member_text(key_id(), quoted(m.id));
    let t2 = member_text(key_crm_id(), quoted(m.crm_id));
    let t3 = member_text(key_is_active(), bool_chars(m.is_active));
    let t4 = member_text(key_age(), int_chars(m.age));
    let t5 = member_text(key_name(), quoted(m.name));
    let t6 = member_text(key_company(), quoted(m.company));
    let t7 = member_text(key_gender(), quoted(m.gender));
    let t8 = member_text(key_email(), quoted(m.email));
    let r8 = t8 + seq!['}'];
    let r7 = t7 + (seq![','] + r8);
    let r6 = t6 + (seq![','] + r7);
    let r5 = t5 + (seq![','] + r6);
    let r4 = t4 + (seq![','] + r5);
    let r3 = t3 + (seq![','] + r4);
    let r2 = t2 + (seq![','] + r3);
    let r1 = t1 + (seq![','] + r2);
    assert(s == seq!['{'] + r1);
    assert(s[0] == '{');
    lemma_member_head(key_id(), quoted(m.id));
    assert(r1[0] == t1[0]);
    assert(s[1] == r1[0]);
    assert(r8[r8.len() - 1] == '}');
    assert(r7[r7.len() - 1] == (seq![','] + r8)[r8.len() as int]);
    assert((seq![','] + r8)[r8.len() as int] == r8[r8.len() - 1]);
    assert(r6[r6.len() - 1] == r7[r7.len() - 1]) by {
        assert(r6[r6.len() - 1] == (seq![','] + r7)[r7.len() as int]);
        assert((seq![','] + r7)[r7.len() as int] == r7[r7.len() - 1]);
    }
    assert(r5[r5.len() - 1] == r6[r6.len() - 1]) by {
        assert(r5[r5.len() - 1] == (seq![','] + r6)[r6.len() as int]);
        assert((seq![','] + r6)[r6.len() as int] == r6[r6.len() - 1]);
    }
    assert(r4[r4.len() - 1] == r5[r5.len() - 1]) by {
        assert(r4[r4.len() - 1] == (seq![','] + r5)[r5.len() as int]);
        assert((seq![','] + r5)[r5.len() as int] == r5[r5.len() - 1]);
    }
    assert(r3[r3.len() - 1] == r4[r4.len() - 1]) by {
        assert(r3[r3.len() - 1] == (seq![','] + r4)[r4.len() as int]);
        assert((seq![','] + r4)[r4.len() as int] == r4[r4.len() - 1]);
    }
    assert(r2[r2.len() - 1] == r3[r3.len() - 1]) by {
        assert(r2[r2.len() - 1] == (seq![','] + r3)[r3.len() as int]);
        assert((seq![','] + r3)[r3.len() as int] == r3[r3.len() - 1]);
    }
    assert(r1[r1.len() - 1] == r2[r2.len() - 1]) by {
        assert(r1[r1.len() - 1] == (seq![','] + r2)[r2.len() as int]);
        assert((seq![','] + r2)[r2.len() as int] == r2[r2.len() - 1]);
    }
    assert(s[s.len() - 1] == r1[r1.len() - 1]);
}

/// Decoding inverts encoding at the text level: the canonical wire text of
/// any representable record holds the wire format and denotes exactly that
/// record, every field value preserved.
#[verifier::rlimit(100)]
pub proof fn lemma_text_round_trip(m: RecModel)
    requires
        rec_model_valid(m),
    ensures
        parse_record(json_text(m)) == Some(m),
{
    lemma_members_of_text(m);
    lemma_text_shape(m);
    let s = json_text(m);
    let e = s.len() - 1;
    assert('{' as u32 == 123 && '"' as u32 == 34 && '}' as u32 == 125);
    assert(!is_ws(s[0]));
    assert(skip_ws(s, 0) == 0);
    assert(!is_ws(s[1]));
    assert(skip_ws(s, 1) == 1);
    assert(s[1] != '}');
    assert(skip_ws(s, e + 1) == e + 1);
    let a8 = full_partial(m);
    assert(complete(a8) is Some);
    let mm = complete(a8)->Some_0;
    assert(mm == m);
    assert(parse_record(s) == Some(m));
}

/// Decoding inverts encoding over the wire bytes: encode a representable
/// record, send the bytes, and decoding them yields exactly that record.
pub proof fn lemma_record_round_trip(m: RecModel)
    requires
        rec_model_valid(m),
    ensures
        crate::decode::decode_spec(vstd::utf8::encode_utf8(json_text(m))) == Ok::<
            RecModel,
            crate::decode::DecodeError,
        >(m),
{
    broadcast use vstd::utf8::encode_utf8_valid_utf8;
    broadcast use vstd::utf8::encode_utf8_decode_utf8;

    reveal(crate::decode::decode_spec);
    lemma_text_round_trip(m);
    assert(vstd::utf8::valid_utf8(vstd::utf8::encode_utf8(json_text(m))));
    assert(vstd::utf8::decode_utf8(vstd::utf8::encode_utf8(json_text(m))) == json_text(m));
}

} // verus!
