//! Executable decoder for the record wire format, proved against the
//! specification in `json`.
use crate::json::{
    assign, complete, digits_end, digits_value, exp_end, hex4_at, hex4_val, hex_val, is_digit,
    is_hex, is_ws, key_age, key_company, key_crm_id, key_email, key_gender, key_id, key_is_active,
    key_name, lit_at, parse_jstring, parse_member_value, parse_members, parse_number, parse_prim,
    parse_record, skip_array_items, skip_object_members, skip_value, skip_ws, unescape, PartialRec,
    Prim,
};
use crate::record::DomainRecord;
use crate::record::RecModel;
use crate::text::char_from_code;
use crate::text::chars_to_string;
use crate::text::utf8_chars;
use vstd::prelude::*;
use vstd::utf8::{decode_utf8, valid_utf8};

verus! {

/// Why a value failed to decode: the bytes are not text, or the text does not
/// hold the record schema.
#[derive(Clone, Copy, Debug, PartialEq, Eq, Structural)]
pub enum DecodeError {
    Utf8,
    Schema,
}

fn ws_char(c: char) -> (b: bool)
    ensures
        b == is_ws(c),
{
    c == ' ' || c == '\n' || c == '\r' || c == '\t'
}

fn ws_end(v: &Vec<char>, i: usize) -> (r: usize)
    requires
        i <= v.len(),
    ensures
        r as int == skip_ws(v@, i as int),
        i <= r <= v.len(),
    decreases v.len() - i,
{
    if i < v.len() && ws_char(v[i]) {
        ws_end(v, i + 1)
    } else {
        i
    }
}

fn unescape_char(c: char) -> (r: Option<char>)
    ensures
        r == unescape(c),
{
    if c == '"' {
        Some('"')
    } else if c == '\\' {
        Some('\\')
    } else if c == '/' {
        Some('/')
    } else if c == 'b' {
        Some('\u{8}')
    } else if c == 'f' {
        Some('\u{c}')
    } else if c == 'n' {
        Some('\n')
    } else if c == 'r' {
        Some('\r')
    } else if c == 't' {
        Some('\t')
    } else {
        None
    }
}

fn hex_char(c: char) -> (b: bool)
    ensures
        b == is_hex(c),
{
    let u = c as u32;
    (48 <= u && u <= 57) || (97 <= u && u <= 102) || (65 <= u && u <= 70)
}

fn hex_value(c: char) -> (r: u8)
    requires
        is_hex(c),
    ensures
        r as int == hex_val(c),
        r <= 15,
{
    let u = c as u32;
    if 48 <= u && u <= 57 {
        (u - 48) as u8
    } else if 97 <= u && u <= 102 {
        (u - 97 + 10) as u8
    } else {
        (u - 65 + 10) as u8
    }
}

fn digit_char(c: char) -> (b: bool)
    ensures
        b == is_digit(c),
{
    let u = c as u32;
    48 <= u && u <= 57
}

/// Reads four hexadecimal digits at `i`, if they are there.
fn hex4(v: &Vec<char>, i: usize) -> (r: Option<u32>)
    requires
        i <= v.len(),
    ensures
        r is Some <==> (i + 4 <= v.len() && hex4_at(v@, i as int)),
        r matches Some(x) ==> x as int == hex4_val(v@, i as int) && x < 0x10000,
{
    if v.len() - i >= 4 && hex_char(v[i]) && hex_char(v[i + 1]) && hex_char(v[i + 2]) && hex_char(
        v[i + 3],
    ) {
        Some(
            4096 * (hex_value(v[i]) as u32) + 256 * (hex_value(v[i + 1]) as u32) + 16 * (hex_value(
                v[i + 2],
            ) as u32) + (hex_value(v[i + 3]) as u32),
        )
    } else {
        None
    }
}

/// Parses a string body as `parse_jstring` does, from just after the opening
/// quote, yielding the unescaped content and the index after the closing
/// quote.
fn jstring(v: &Vec<char>, i: usize) -> (r: Option<(Vec<char>, usize)>)
    ensures
        r is Some <==> parse_jstring(v@, i as int) is Some,
        r matches Some((t, j)) ==> parse_jstring(v@, i as int) matches Some((st, sj)) && t@ == st
            && j as int == sj && i < j <= v.len(),
    decreases v.len() - i,
{
    if i >= v.len() {
        None
    } else if v[i] == '"' {
        Some((Vec::new(), i + 1))
    } else if v[i] == '\\' {
        if i + 1 < v.len() {
            let e = v[i + 1];
            match unescape_char(e) {
                Some(u) => {
                    match jstring(v, i + 2) {
                        Some((mut t, j)) => {
                            t.insert(0, u);
                            proof {
                                assert(t@ == seq![unescape(v@[i as int + 1])->Some_0] + t@.skip(1));
                            }
                            Some((t, j))
                        },
                        None => None,
                    }
                },
                None => {
                    if e == 'u' {
                        match hex4(v, i + 2) {
                            None => None,
                            Some(x) => {
                                if 0xD800 <= x && x <= 0xDBFF {
                                    if v.len() - i >= 12 && v[i + 6] == '\\' && v[i + 7] == 'u' {
                                        match hex4(v, i + 8) {
                                            None => None,
                                            Some(y) => {
                                                if 0xDC00 <= y && y <= 0xDFFF {
                                                    let cp: u32 = 0x10000 + (x - 0xD800) * 0x400
                                                        + (y - 0xDC00);
                                                    match char_from_code(cp) {
                                                        Some(ch) => {
                                                            match jstring(v, i + 12) {
                                                                Some((mut t, j)) => {
                                                                    t.insert(0, ch);
                                                                    proof {
                                                                        vstd::utf8::char_u32_cast(
                                                                            ch,
                                                                            ch as u32,
                                                                        );
                                                                        assert(t@ == seq![ch]
                                                                            + t@.skip(1));
                                                                    }
                                                                    Some((t, j))
                                                                },
                                                                None => None,
                                                            }
                                                        },
                                                        None => {
                                                            proof {
                                                                assert(false);
                                                            }
                                                            None
                                                        },
                                                    }
                                                } else {
                                                    None
                                                }
                                            },
                                        }
                                    } else {
                                        None
                                    }
                                } else if 0xDC00 <= x && x <= 0xDFFF {
                                    None
                                } else {
                                    match char_from_code(x) {
                                        Some(ch) => {
                                            match jstring(v, i + 6) {
                                                Some((mut t, j)) => {
                                                    t.insert(0, ch);
                                                    proof {
                                                        vstd::utf8::char_u32_cast(ch, ch as u32);
                                                        assert(t@ == seq![ch] + t@.skip(1));
                                                    }
                                                    Some((t, j))
                                                },
                                                None => None,
                                            }
                                        },
                                        None => {
                                            proof {
                                                assert(false);
                                            }
                                            None
                                        },
                                    }
                                }
                            },
                        }
                    } else {
                        None
                    }
                },
            }
        } else {
            None
        }
    } else if (v[i] as u32) < 0x20 {
        None
    } else {
        match jstring(v, i + 1) {
            Some((mut t, j)) => {
                t.insert(0, v[i]);
                proof {
                    assert(t@ == seq![v@[i as int]] + t@.skip(1));
                }
                Some((t, j))
            },
            None => None,
        }
    }
}

/// Executable counterpart of `Prim`.  An integer too large for the record's
/// numeric attribute is kept only as `Big`: the specification value is then
/// known to lie outside the machine range, which is all that matters.
enum PrimX {
    Str(Vec<char>),
    IntVal(i64),
    Big,
    NonIntNum,
    Boolean(bool),
    Null,
    Composite,
}

spec fn primx_matches(x: PrimX, p: Prim) -> bool {
    match x {
        PrimX::Str(t) => p matches Prim::Str(st) && t@ == st,
        PrimX::IntVal(n) => p == Prim::Int(n as int),
        PrimX::Big => p matches Prim::Int(m) && !(-0x8000_0000 <= m < 0x8000_0000),
        PrimX::NonIntNum => p is NonIntNum,
        PrimX::Boolean(b) => p == Prim::Boolean(b),
        PrimX::Null => p is Null,
        PrimX::Composite => p is Composite,
    }
}

/// Scans a run of digits from `i`: its end, its value, and whether the value
/// overflowed the tracked range (then it surely exceeds the record's numeric
/// attribute range).
fn scan_digits(v: &Vec<char>, i: usize) -> (r: (usize, u64, bool))
    requires
        i <= v.len(),
    ensures
        r.0 as int == digits_end(v@, i as int),
        i <= r.0 <= v.len(),
        !r.2 ==> r.1 as int == digits_value(v@.subrange(i as int, r.0 as int)) && r.1
            <= 42949672959,
        r.2 ==> digits_value(v@.subrange(i as int, r.0 as int)) > 0xFFFF_FFFF,
{
    let mut j: usize = i;
    let mut acc: u64 = 0;
    let mut over: bool = false;
    proof {
        assert(v@.subrange(i as int, i as int) =~= Seq::<char>::empty());
    }
    while j < v.len() && digit_char(v[j])
        invariant
            i <= j <= v.len(),
            digits_end(v@, i as int) == digits_end(v@, j as int),
            !over ==> acc as int == digits_value(v@.subrange(i as int, j as int)) && acc
                <= 42949672959,
            over ==> digits_value(v@.subrange(i as int, j as int)) > 0xFFFF_FFFF,
        decreases v.len() - j,
    {
        let d = (v[j] as u32 - 48) as u64;
        proof {
            assert(v@.subrange(i as int, j as int + 1).drop_last() =~= v@.subrange(
                i as int,
                j as int,
            ));
            assert(v@.subrange(i as int, j as int + 1).last() == v@[j as int]);
        }
        if over {
        } else if acc > 0xFFFF_FFFF {
            over = true;
        } else {
            acc = acc * 10 + d;
        }
        j += 1;
    }
    (j, acc, over)
}

/// End of an exponent part whose marker stands at `k`.
fn exp_end_x(v: &Vec<char>, k: usize) -> (r: Option<usize>)
    requires
        k < v.len(),
    ensures
        r is Some <==> exp_end(v@, k as int) is Some,
        r matches Some(e) ==> exp_end(v@, k as int) == Some(e as int) && e <= v.len(),
{
    let p = if k + 1 < v.len() && (v[k + 1] == '+' || v[k + 1] == '-') {
        k + 2
    } else {
        k + 1
    };
    let (e, _, _) = scan_digits(v, p);
    if e == p {
        None
    } else {
        Some(e)
    }
}

/// Parses a number as `parse_number` does.
fn number_x(v: &Vec<char>, i: usize) -> (r: Option<(PrimX, usize)>)
    requires
        i <= v.len(),
    ensures
        r is Some <==> parse_number(v@, i as int) is Some,
        r matches Some((x, j)) ==> parse_number(v@, i as int) matches Some((sp, sj))
            && primx_matches(x, sp) && j as int == sj && j <= v.len(),
{
    if i >= v.len() {
        return None;
    }
    let neg = v[i] == '-';
    let d0 = if neg {
        i + 1
    } else {
        i
    };
    let (de, acc, over) = scan_digits(v, d0);
    if de == d0 || (d0 < v.len() && v[d0] == '0' && de > d0 + 1) {
        return None;
    }
    if de < v.len() && v[de] == '.' {
        let (fe, _, _) = scan_digits(v, de + 1);
        if fe == de + 1 {
            None
        } else if fe < v.len() && (v[fe] == 'e' || v[fe] == 'E') {
            match exp_end_x(v, fe) {
                Some(e) => Some((PrimX::NonIntNum, e)),
                None => None,
            }
        } else {
            Some((PrimX::NonIntNum, fe))
        }
    } else if de < v.len() && (v[de] == 'e' || v[de] == 'E') {
        match exp_end_x(v, de) {
            Some(e) => Some((PrimX::NonIntNum, e)),
            None => None,
        }
    } else {
        if over {
            Some((PrimX::Big, de))
        } else {
            let val = if neg {
                -(acc as i64)
            } else {
                acc as i64
            };
            Some((PrimX::IntVal(val), de))
        }
    }
}

/// Parses one primitive value as `parse_prim` does.
fn prim_x(v: &Vec<char>, i: usize) -> (r: Option<(PrimX, usize)>)
    requires
        i <= v.len(),
    ensures
        r is Some <==> parse_prim(v@, i as int) is Some,
        r matches Some((x, j)) ==> parse_prim(v@, i as int) matches Some((sp, sj)) && primx_matches(
            x,
            sp,
        ) && j as int == sj && j <= v.len(),
{
    if i >= v.len() {
        None
    } else if v[i] == '"' {
        match jstring(v, i + 1) {
            Some((t, j)) => Some((PrimX::Str(t), j)),
            None => None,
        }
    } else if v[i] == 't' {
        if v.len() - i >= 4 && v[i + 1] == 'r' && v[i + 2] == 'u' && v[i + 3] == 'e' {
            proof {
                assert(v@.subrange(i as int, i as int + 4) =~= seq!['t', 'r', 'u', 'e']);
            }
            Some((PrimX::Boolean(true), i + 4))
        } else {
            proof {
                if lit_at(v@, i as int, seq!['t', 'r', 'u', 'e']) {
                    assert(v@.subrange(i as int, i as int + 4)[1] == v@[i as int + 1]);
                    assert(v@.subrange(i as int, i as int + 4)[2] == v@[i as int + 2]);
                    assert(v@.subrange(i as int, i as int + 4)[3] == v@[i as int + 3]);
                }
            }
            None
        }
    } else if v[i] == 'f' {
        if v.len() - i >= 5 && v[i + 1] == 'a' && v[i + 2] == 'l' && v[i + 3] == 's' && v[i + 4]
            == 'e' {
            proof {
                assert(v@.subrange(i as int, i as int + 5) =~= seq!['f', 'a', 'l', 's', 'e']);
            }
            Some((PrimX::Boolean(false), i + 5))
        } else {
            proof {
                if lit_at(v@, i as int, seq!['f', 'a', 'l', 's', 'e']) {
                    assert(v@.subrange(i as int, i as int + 5)[1] == v@[i as int + 1]);
                    assert(v@.subrange(i as int, i as int + 5)[2] == v@[i as int + 2]);
                    assert(v@.subrange(i as int, i as int + 5)[3] == v@[i as int + 3]);
                    assert(v@.subrange(i as int, i as int + 5)[4] == v@[i as int + 4]);
                }
            }
            None
        }
    } else if v[i] == 'n' {
        if v.len() - i >= 4 && v[i + 1] == 'u' && v[i + 2] == 'l' && v[i + 3] == 'l' {
            proof {
                assert(v@.subrange(i as int, i as int + 4) =~= seq!['n', 'u', 'l', 'l']);
            }
            Some((PrimX::Null, i + 4))
        } else {
            proof {
                if lit_at(v@, i as int, seq!['n', 'u', 'l', 'l']) {
                    assert(v@.subrange(i as int, i as int + 4)[1] == v@[i as int + 1]);
                    assert(v@.subrange(i as int, i as int + 4)[2] == v@[i as int + 2]);
                    assert(v@.subrange(i as int, i as int + 4)[3] == v@[i as int + 3]);
                }
            }
            None
        }
    } else if v[i] == '-' || digit_char(v[i]) {
        number_x(v, i)
    } else {
        None
    }
}

/// Skips one JSON value of any shape, as `skip_value` does.
fn skip_value_x(v: &Vec<char>, i: usize) -> (r: Option<usize>)
    requires
        i <= v.len(),
    ensures
        r is Some <==> skip_value(v@, i as int) is Some,
        r matches Some(k) ==> skip_value(v@, i as int) == Some(k as int) && k <= v.len(),
    decreases v.len() - i, 1int,
{
    if i >= v.len() {
        None
    } else if v[i] == '[' {
        let j = ws_end(v, i + 1);
        if i < j {
            skip_array_items_x(v, j)
        } else {
            None
        }
    } else if v[i] == '{' {
        let j = ws_end(v, i + 1);
        if i < j {
            skip_object_members_x(v, j)
        } else {
            None
        }
    } else {
        match prim_x(v, i) {
            Some((px, k)) => Some(k),
            None => None,
        }
    }
}

/// Walks an array's items, as `skip_array_items` does.
fn skip_array_items_x(v: &Vec<char>, i: usize) -> (r: Option<usize>)
    requires
        i <= v.len(),
    ensures
        r is Some <==> skip_array_items(v@, i as int) is Some,
        r matches Some(k) ==> skip_array_items(v@, i as int) == Some(k as int) && k <= v.len(),
    decreases v.len() - i, 2int,
{
    if i >= v.len() {
        None
    } else if v[i] == ']' {
        Some(i + 1)
    } else {
        match skip_value_x(v, i) {
            None => None,
            Some(k) => {
                let e = ws_end(v, k);
                if e < v.len() && v[e] == ',' {
                    let n = ws_end(v, e + 1);
                    if i < n {
                        skip_array_items_x(v, n)
                    } else {
                        None
                    }
                } else if e < v.len() && v[e] == ']' {
                    Some(e + 1)
                } else {
                    None
                }
            },
        }
    }
}

/// Walks an ignored object's members, as `skip_object_members` does.
fn skip_object_members_x(v: &Vec<char>, i: usize) -> (r: Option<usize>)
    requires
        i <= v.len(),
    ensures
        r is Some <==> skip_object_members(v@, i as int) is Some,
        r matches Some(k) ==> skip_object_members(v@, i as int) == Some(k as int) && k <= v.len(),
    decreases v.len() - i, 2int,
{
    if i >= v.len() {
        None
    } else if v[i] == '}' {
        Some(i + 1)
    } else if v[i] == '"' {
        match jstring(v, i + 1) {
            None => None,
            Some((_key, j)) => {
                let c = ws_end(v, j);
                if c < v.len() && v[c] == ':' {
                    let v0 = ws_end(v, c + 1);
                    if i < v0 {
                        match skip_value_x(v, v0) {
                            None => None,
                            Some(k) => {
                                let e = ws_end(v, k);
                                if e < v.len() && v[e] == ',' {
                                    let n = ws_end(v, e + 1);
                                    if i < n {
                                        skip_object_members_x(v, n)
                                    } else {
                                        None
                                    }
                                } else if e < v.len() && v[e] == '}' {
                                    Some(e + 1)
                                } else {
                                    None
                                }
                            },
                        }
                    } else {
                        None
                    }
                } else {
                    None
                }
            },
        }
    } else {
        None
    }
}

/// Parses one member's value, as `parse_member_value` does.
fn member_value_x(v: &Vec<char>, i: usize) -> (r: Option<(PrimX, usize)>)
    requires
        i <= v.len(),
    ensures
        r is Some <==> parse_member_value(v@, i as int) is Some,
        r matches Some((x, j)) ==> parse_member_value(v@, i as int) matches Some((sp, sj))
            && primx_matches(x, sp) && j as int == sj && j <= v.len(),
{
    if i < v.len() && (v[i] == '[' || v[i] == '{') {
        match skip_value_x(v, i) {
            Some(k) => Some((PrimX::Composite, k)),
            None => None,
        }
    } else {
        prim_x(v, i)
    }
}

/// Executable counterpart of `PartialRec`.
struct PartialX {
    id: Option<Vec<char>>,
    crm_id: Option<Vec<char>>,
    is_active: Option<bool>,
    age: Option<i32>,
    name: Option<Vec<char>>,
    company: Option<Vec<char>>,
    gender: Option<Vec<char>>,
    email: Option<Vec<char>>,
}

spec fn opt_chars_model(o: Option<Vec<char>>) -> Option<Seq<char>> {
    match o {
        Some(t) => Some(t@),
        None => None,
    }
}

spec fn pmodel(x: PartialX) -> PartialRec {
    PartialRec {
        id: opt_chars_model(x.id),
        crm_id: opt_chars_model(x.crm_id),
        is_active: x.is_active,
        age: match x.age {
            Some(n) => Some(n as int),
            None => None,
        },
        name: opt_chars_model(x.name),
        company: opt_chars_model(x.company),
        gender: opt_chars_model(x.gender),
        email: opt_chars_model(x.email),
    }
}

/// True equality between a gathered key and a known attribute name.
fn chars_eq_str(k: &Vec<char>, s: &str) -> (b: bool)
    ensures
        b == (k@ == s@),
{
    let n = s.unicode_len();
    if k.len() != n {
        return false;
    }
    let mut j: usize = 0;
    while j < n
        invariant
            j <= n,
            n == s@.len(),
            n == k@.len(),
            forall|m: int| 0 <= m < j ==> k@[m] == s@[m],
        decreases n - j,
    {
        if k[j] != s.get_char(j) {
            return false;
        }
        j += 1;
    }
    proof {
        assert(k@ =~= s@);
    }
    true
}

/// Records one member as `assign` does.
fn assign_x(acc: PartialX, key: &Vec<char>, px: PrimX, sp: Ghost<Prim>) -> (r: Option<PartialX>)
    requires
        primx_matches(px, sp@),
    ensures
        r is Some <==> assign(pmodel(acc), key@, sp@) is Some,
        r matches Some(x) ==> assign(pmodel(acc), key@, sp@) == Some(pmodel(x)),
{
    proof {
        reveal_strlit("_id");
        reveal_strlit("crmId");
        reveal_strlit("isActive");
        reveal_strlit("age");
        reveal_strlit("name");
        reveal_strlit("company");
        reveal_strlit("gender");
        reveal_strlit("email");
        assert("_id"@ =~= key_id());
        assert("crmId"@ =~= key_crm_id());
        assert("isActive"@ =~= key_is_active());
        assert("age"@ =~= key_age());
        assert("name"@ =~= key_name());
        assert("company"@ =~= key_company());
        assert("gender"@ =~= key_gender());
        assert("email"@ =~= key_email());
    }
    if chars_eq_str(key, "_id") {
        match px {
            PrimX::Str(t) => if acc.id.is_none() {
                Some(PartialX { id: Some(t), ..acc })
            } else {
                None
            },
            _ => None,
        }
    } else if chars_eq_str(key, "crmId") {
        match px {
            PrimX::Str(t) => if acc.crm_id.is_none() {
                Some(PartialX { crm_id: Some(t), ..acc })
            } else {
                None
            },
            _ => None,
        }
    } else if chars_eq_str(key, "isActive") {
        match px {
            PrimX::Boolean(b) => if acc.is_active.is_none() {
                Some(PartialX { is_active: Some(b), ..acc })
            } else {
                None
            },
            _ => None,
        }
    } else if chars_eq_str(key, "age") {
        match px {
            PrimX::IntVal(n) => if acc.age.is_none() && -2147483648 <= n && n < 2147483648 {
                Some(PartialX { age: Some(n as i32), ..acc })
            } else {
                None
            },
            _ => None,
        }
    } else if chars_eq_str(key, "name") {
        match px {
            PrimX::Str(t) => if acc.name.is_none() {
                Some(PartialX { name: Some(t), ..acc })
            } else {
                None
            },
            _ => None,
        }
    } else if chars_eq_str(key, "company") {
        match px {
            PrimX::Str(t) => if acc.company.is_none() {
                Some(PartialX { company: Some(t), ..acc })
            } else {
                None
            },
            _ => None,
        }
    } else if chars_eq_str(key, "gender") {
        match px {
            PrimX::Str(t) => if acc.gender.is_none() {
                Some(PartialX { gender: Some(t), ..acc })
            } else {
                None
            },
            _ => None,
        }
    } else if chars_eq_str(key, "email") {
        match px {
            PrimX::Str(t) => if acc.email.is_none() {
                Some(PartialX { email: Some(t), ..acc })
            } else {
                None
            },
            _ => None,
        }
    } else {
        Some(acc)
    }
}

/// Walks the object's members as `parse_members` does.
fn members_x(v: &Vec<char>, i: usize, acc: PartialX) -> (r: Option<(PartialX, usize)>)
    requires
        i <= v.len(),
    ensures
        r is Some <==> parse_members(v@, i as int, pmodel(acc)) is Some,
        r matches Some((x, j)) ==> parse_members(v@, i as int, pmodel(acc)) == Some(
            (pmodel(x), j as int),
        ) && j <= v.len(),
    decreases v.len() - i,
{
    if i >= v.len() || v[i] != '"' {
        return None;
    }
    match jstring(v, i + 1) {
        None => None,
        Some((key, j)) => {
            let c = ws_end(v, j);
            if c < v.len() && v[c] == ':' {
                let v0 = ws_end(v, c + 1);
                match member_value_x(v, v0) {
                    None => None,
                    Some((px, k)) => {
                        let ghost sp = parse_member_value(v@, v0 as int)->Some_0.0;
                        match assign_x(acc, &key, px, Ghost(sp)) {
                            None => None,
                            Some(acc2) => {
                                let e = ws_end(v, k);
                                if e < v.len() && v[e] == ',' {
                                    let n = ws_end(v, e + 1);
                                    if i < n {
                                        members_x(v, n, acc2)
                                    } else {
                                        None
                                    }
                                } else {
                                    Some((acc2, e))
                                }
                            },
                        }
                    },
                }
            } else {
                None
            }
        },
    }
}

/// Assembles the record if every attribute was gathered.
fn complete_x(acc: PartialX) -> (r: Option<DomainRecord>)
    ensures
        r is Some <==> complete(pmodel(acc)) is Some,
        r matches Some(rec) ==> complete(pmodel(acc)) == Some(rec@),
{
    match (acc.id, acc.crm_id, acc.is_active, acc.age, acc.name, acc.company, acc.gender,
        acc.email) {
        (
            Some(id),
            Some(crm_id),
            Some(is_active),
            Some(age),
            Some(name),
            Some(company),
            Some(gender),
            Some(email),
        ) => Some(
            DomainRecord {
                id: chars_to_string(&id),
                crm_id: chars_to_string(&crm_id),
                is_active,
                age,
                name: chars_to_string(&name),
                company: chars_to_string(&company),
                gender: chars_to_string(&gender),
                email: chars_to_string(&email),
            },
        ),
        _ => None,
    }
}

/// Parses a whole character sequence as `parse_record` does.
fn record_from_chars(v: &Vec<char>) -> (r: Option<DomainRecord>)
    ensures
        r is Some <==> parse_record(v@) is Some,
        r matches Some(rec) ==> parse_record(v@) == Some(rec@),
{
    let empty = PartialX {
        id: None,
        crm_id: None,
        is_active: None,
        age: None,
        name: None,
        company: None,
        gender: None,
        email: None,
    };
    let i0 = ws_end(v, 0);
    if i0 < v.len() && v[i0] == '{' {
        let i1 = ws_end(v, i0 + 1);
        if i1 < v.len() && v[i1] == '}' {
            if ws_end(v, i1 + 1) == v.len() {
                complete_x(empty)
            } else {
                None
            }
        } else {
            match members_x(v, i1, empty) {
                None => None,
                Some((acc, e)) => {
                    if e < v.len() && v[e] == '}' && ws_end(v, e + 1) == v.len() {
                        complete_x(acc)
                    } else {
                        None
                    }
                },
            }
        }
    } else {
        None
    }
}

/// What a byte sequence means as a record: the bytes must be valid text, and
/// the text must hold the record wire format.
#[verifier::opaque]
pub open spec fn decode_spec(bytes: Seq<u8>) -> Result<RecModel, DecodeError> {
    if !valid_utf8(bytes) {
        Err(DecodeError::Utf8)
    } else {
        match parse_record(decode_utf8(bytes)) {
            Some(m) => Ok(m),
            None => Err(DecodeError::Schema),
        }
    }
}

/// Decodes one consumed value into a domain record.  Succeeds exactly on the
/// byte sequences that `decode_spec` accepts, and then returns exactly the
/// record that the wire format denotes; a record is never partially
/// constructed.
pub fn decode_record(value: &Vec<u8>) -> (r: Result<DomainRecord, DecodeError>)
    ensures
        r is Ok <==> decode_spec(value@) is Ok,
        r matches Ok(rec) ==> decode_spec(value@) == Ok::<RecModel, DecodeError>(rec@),
        r matches Err(e) ==> decode_spec(value@) == Err::<RecModel, DecodeError>(e),
{
    proof {
        reveal(decode_spec);
    }
    match utf8_chars(value.as_slice()) {
        None => Err(DecodeError::Utf8),
        Some(chars) => match record_from_chars(&chars) {
            Some(rec) => Ok(rec),
            None => Err(DecodeError::Schema),
        },
    }
}

} // verus!
