//! Specification of the record wire format.
//!
//! A record travels as the text of one JSON object holding exactly the domain
//! attribute set: `_id`, `crmId`, `isActive`, `age`, `name`, `company`,
//! `gender`, `email`.  Members may come in any order, surrounded by any
//! whitespace; unknown members are ignored whatever their value's shape; a
//! missing, repeated or mistyped known member makes the whole text invalid.
//! These functions define the format over character sequences; the
//! executable decoder and encoder are proved against them.
use crate::record::RecModel;
use vstd::prelude::*;

verus! {

/// JSON insignificant whitespace.
pub open spec fn is_ws(c: char) -> bool {
    c == ' ' || c == '\n' || c == '\r' || c == '\t'
}

/// Index of the first non-whitespace character at or after `i`.
pub open spec fn skip_ws(s: Seq<char>, i: int) -> int
    decreases s.len() - i,
{
    if 0 <= i < s.len() && is_ws(s[i]) {
        skip_ws(s, i + 1)
    } else {
        i
    }
}

/// The character denoted by a single-character escape, if the escape is legal.
pub open spec fn unescape(c: char) -> Option<char> {
    if c == '"' {
        Some('"')
    } else if c == '\\' {
        Some('\\')
    } else if c == '/' {
        Some('/')
    } else if c == 'b' {
        Some('\u{8}')
    } else if c == 'f' {
        Some('\u{c}')
    } else if c == 'n' {
        Some('\n')
    } else if c == 'r' {
        Some('\r')
    } else if c == 't' {
        Some('\t')
    } else {
        None
    }
}

pub open spec fn is_hex(c: char) -> bool {
    ('0' as u32 <= c as u32 && c as u32 <= '9' as u32) || ('a' as u32 <= c as u32 && c as u32
        <= 'f' as u32) || ('A' as u32 <= c as u32 && c as u32 <= 'F' as u32)
}

/// Value of one hexadecimal digit.
pub open spec fn hex_val(c: char) -> int {
    if '0' as u32 <= c as u32 && c as u32 <= '9' as u32 {
        c as u32 - '0' as u32
    } else if 'a' as u32 <= c as u32 && c as u32 <= 'f' as u32 {
        c as u32 - 'a' as u32 + 10
    } else {
        c as u32 - 'A' as u32 + 10
    }
}

/// True when the four characters at `i` are hexadecimal digits.
pub open spec fn hex4_at(s: Seq<char>, i: int) -> bool {
    is_hex(s[i]) && is_hex(s[i + 1]) && is_hex(s[i + 2]) && is_hex(s[i + 3])
}

/// Value of the four hexadecimal digits at `i`.
pub open spec fn hex4_val(s: Seq<char>, i: int) -> int {
    4096 * hex_val(s[i]) + 256 * hex_val(s[i + 1]) + 16 * hex_val(s[i + 2]) + hex_val(s[i + 3])
}

/// Parses the body of a JSON string, `i` standing just after the opening
/// quote.  Yields the unescaped content and the index just after the closing
/// quote.  `\uXXXX` escapes denote the code unit `XXXX`: a high surrogate
/// must be followed by a low surrogate escape, and the pair denotes one
/// supplementary character; a lone surrogate is invalid.
pub open spec fn parse_jstring(s: Seq<char>, i: int) -> Option<(Seq<char>, int)>
    decreases s.len() - i,
{
    if i < 0 || i >= s.len() {
        None
    } else if s[i] == '"' {
        Some((Seq::empty(), i + 1))
    } else if s[i] == '\\' {
        if i + 1 < s.len() {
            if unescape(s[i + 1]) is Some {
                match parse_jstring(s, i + 2) {
                    Some((t, j)) => Some((seq![unescape(s[i + 1])->Some_0] + t, j)),
                    None => None,
                }
            } else if s[i + 1] == 'u' {
                if i + 6 <= s.len() && hex4_at(s, i + 2) {
                    let x = hex4_val(s, i + 2);
                    if 0xD800 <= x <= 0xDBFF {
                        if i + 12 <= s.len() && s[i + 6] == '\\' && s[i + 7] == 'u' && hex4_at(
                            s,
                            i + 8,
                        ) {
                            let y = hex4_val(s, i + 8);
                            if 0xDC00 <= y <= 0xDFFF {
                                let cp = 0x10000 + (x - 0xD800) * 0x400 + (y - 0xDC00);
                                match parse_jstring(s, i + 12) {
                                    Some((t, j)) => Some((seq![(cp as u32) as char] + t, j)),
                                    None => None,
                                }
                            } else {
                                None
                            }
                        } else {
                            None
                        }
                    } else if 0xDC00 <= x <= 0xDFFF {
                        None
                    } else {
                        match parse_jstring(s, i + 6) {
                            Some((t, j)) => Some((seq![(x as u32) as char] + t, j)),
                            None => None,
                        }
                    }
                } else {
                    None
                }
            } else {
                None
            }
        } else {
            None
        }
    } else if (s[i] as u32) < 0x20 {
        None
    } else {
        match parse_jstring(s, i + 1) {
            Some((t, j)) => Some((seq![s[i]] + t, j)),
            None => None,
        }
    }
}

pub open spec fn is_digit(c: char) -> bool {
    '0' as u32 <= c as u32 && c as u32 <= '9' as u32
}

pub open spec fn digit_val(c: char) -> int {
    c as u32 - '0' as u32
}

/// Index of the first non-digit character at or after `i`.
pub open spec fn digits_end(s: Seq<char>, i: int) -> int
    decreases s.len() - i,
{
    if 0 <= i < s.len() && is_digit(s[i]) {
        digits_end(s, i + 1)
    } else {
        i
    }
}

/// Value of a sequence of decimal digits, most significant first.
pub open spec fn digits_value(d: Seq<char>) -> int
    decreases d.len(),
{
    if d.len() == 0 {
        0
    } else {
        digits_value(d.drop_last()) * 10 + digit_val(d.last())
    }
}

/// The shape of one member's value.  A known attribute demands a primitive
/// of its own type; a composite value (an array or an object) fits no known
/// attribute, but an unknown member may hold one.
pub ghost enum Prim {
    Str(Seq<char>),
    Int(int),
    NonIntNum,
    Boolean(bool),
    Null,
    Composite,
}

/// End of an exponent part whose marker `e`/`E` stands at `k`, or `None` if
/// the exponent is malformed.
pub open spec fn exp_end(s: Seq<char>, k: int) -> Option<int> {
    let p = if k + 1 < s.len() && (s[k + 1] == '+' || s[k + 1] == '-') {
        k + 2
    } else {
        k + 1
    };
    let e = digits_end(s, p);
    if e == p {
        None
    } else {
        Some(e)
    }
}

/// Parses a JSON number starting at `i`.  An integer without fraction or
/// exponent becomes `Prim::Int`; any other well-formed number is kept only as
/// `Prim::NonIntNum`, which no known member accepts.
pub open spec fn parse_number(s: Seq<char>, i: int) -> Option<(Prim, int)> {
    if i < 0 || i >= s.len() {
        None
    } else {
        let neg = s[i] == '-';
        let d0 = if neg {
            i + 1
        } else {
            i
        };
        let de = digits_end(s, d0);
        if de == d0 || (d0 < s.len() && s[d0] == '0' && de > d0 + 1) {
            None
        } else {
            let v = if neg {
                -digits_value(s.subrange(d0, de))
            } else {
                digits_value(s.subrange(d0, de))
            };
            if de < s.len() && s[de] == '.' {
                let fe = digits_end(s, de + 1);
                if fe == de + 1 {
                    None
                } else if fe < s.len() && (s[fe] == 'e' || s[fe] == 'E') {
                    match exp_end(s, fe) {
                        Some(e) => Some((Prim::NonIntNum, e)),
                        None => None,
                    }
                } else {
                    Some((Prim::NonIntNum, fe))
                }
            } else if de < s.len() && (s[de] == 'e' || s[de] == 'E') {
                match exp_end(s, de) {
                    Some(e) => Some((Prim::NonIntNum, e)),
                    None => None,
                }
            } else {
                Some((Prim::Int(v), de))
            }
        }
    }
}

/// True when `s` holds `lit` starting at `i`.
pub open spec fn lit_at(s: Seq<char>, i: int, lit: Seq<char>) -> bool {
    0 <= i && i + lit.len() <= s.len() && s.subrange(i, i + lit.len()) == lit
}

/// Parses one primitive value starting at `i`.
pub open spec fn parse_prim(s: Seq<char>, i: int) -> Option<(Prim, int)> {
    if i < 0 || i >= s.len() {
        None
    } else if s[i] == '"' {
        match parse_jstring(s, i + 1) {
            Some((t, j)) => Some((Prim::Str(t), j)),
            None => None,
        }
    } else if s[i] == 't' {
        if lit_at(s, i, seq!['t', 'r', 'u', 'e']) {
            Some((Prim::Boolean(true), i + 4))
        } else {
            None
        }
    } else if s[i] == 'f' {
        if lit_at(s, i, seq!['f', 'a', 'l', 's', 'e']) {
            Some((Prim::Boolean(false), i + 5))
        } else {
            None
        }
    } else if s[i] == 'n' {
        if lit_at(s, i, seq!['n', 'u', 'l', 'l']) {
            Some((Prim::Null, i + 4))
        } else {
            None
        }
    } else if s[i] == '-' || is_digit(s[i]) {
        parse_number(s, i)
    } else {
        None
    }
}

/// End of one JSON value of any shape starting at `i`: a primitive, an
/// array or an object, with any inner whitespace.
pub open spec fn skip_value(s: Seq<char>, i: int) -> Option<int>
    decreases s.len() - i, 1int,
{
    if i < 0 || i >= s.len() {
        None
    } else if s[i] == '[' {
        let j = skip_ws(s, i + 1);
        if i < j <= s.len() {
            skip_array_items(s, j)
        } else {
            None
        }
    } else if s[i] == '{' {
        let j = skip_ws(s, i + 1);
        if i < j <= s.len() {
            skip_object_members(s, j)
        } else {
            None
        }
    } else {
        match parse_prim(s, i) {
            Some((v, k)) => Some(k),
            None => None,
        }
    }
}

/// End of an array whose items start at `i` (just after the opening bracket,
/// whitespace skipped): the index after the closing bracket.
pub open spec fn skip_array_items(s: Seq<char>, i: int) -> Option<int>
    decreases s.len() - i, 2int,
{
    if i < 0 || i >= s.len() {
        None
    } else if s[i] == ']' {
        Some(i + 1)
    } else {
        match skip_value(s, i) {
            None => None,
            Some(k) => {
                let e = skip_ws(s, k);
                if 0 <= e < s.len() && s[e] == ',' {
                    let n = skip_ws(s, e + 1);
                    if i < n <= s.len() {
                        skip_array_items(s, n)
                    } else {
                        None
                    }
                } else if 0 <= e < s.len() && s[e] == ']' {
                    Some(e + 1)
                } else {
                    None
                }
            },
        }
    }
}

/// End of an object whose members start at `i` (just after the opening
/// brace, whitespace skipped): the index after the closing brace.  Nothing
/// inside is interpreted.
pub open spec fn skip_object_members(s: Seq<char>, i: int) -> Option<int>
    decreases s.len() - i, 2int,
{
    if i < 0 || i >= s.len() {
        None
    } else if s[i] == '}' {
        Some(i + 1)
    } else if s[i] == '"' {
        match parse_jstring(s, i + 1) {
            None => None,
            Some((key, j)) => {
                let c = skip_ws(s, j);
                if 0 <= c < s.len() && s[c] == ':' {
                    let v0 = skip_ws(s, c + 1);
                    if i < v0 <= s.len() {
                        match skip_value(s, v0) {
                            None => None,
                            Some(k) => {
                                let e = skip_ws(s, k);
                                if 0 <= e < s.len() && s[e] == ',' {
                                    let n = skip_ws(s, e + 1);
                                    if i < n <= s.len() {
                                        skip_object_members(s, n)
                                    } else {
                                        None
                                    }
                                } else if 0 <= e < s.len() && s[e] == '}' {
                                    Some(e + 1)
                                } else {
                                    None
                                }
                            },
                        }
                    } else {
                        None
                    }
                } else {
                    None
                }
            },
        }
    } else {
        None
    }
}

/// Parses one member's value starting at `i`: a primitive with its meaning,
/// or a composite value, skipped whole.
pub open spec fn parse_member_value(s: Seq<char>, i: int) -> Option<(Prim, int)> {
    if i < 0 || i >= s.len() {
        None
    } else if s[i] == '[' || s[i] == '{' {
        match skip_value(s, i) {
            Some(k) => Some((Prim::Composite, k)),
            None => None,
        }
    } else {
        parse_prim(s, i)
    }
}

pub open spec fn key_id() -> Seq<char> {
    seq!['_', 'i', 'd']
}

pub open spec fn key_crm_id() -> Seq<char> {
    seq!['c', 'r', 'm', 'I', 'd']
}

pub open spec fn key_is_active() -> Seq<char> {
    seq!['i', 's', 'A', 'c', 't', 'i', 'v', 'e']
}

pub open spec fn key_age() -> Seq<char> {
    seq!['a', 'g', 'e']
}

pub open spec fn key_name() -> Seq<char> {
    seq!['n', 'a', 'm', 'e']
}

pub open spec fn key_company() -> Seq<char> {
    seq!['c', 'o', 'm', 'p', 'a', 'n', 'y']
}

pub open spec fn key_gender() -> Seq<char> {
    seq!['g', 'e', 'n', 'd', 'e', 'r']
}

pub open spec fn key_email() -> Seq<char> {
    seq!['e', 'm', 'a', 'i', 'l']
}

/// The attributes gathered so far while walking the object's members.
pub ghost struct PartialRec {
    pub id: Option<Seq<char>>,
    pub crm_id: Option<Seq<char>>,
    pub is_active: Option<bool>,
    pub age: Option<int>,
    pub name: Option<Seq<char>>,
    pub company: Option<Seq<char>>,
    pub gender: Option<Seq<char>>,
    pub email: Option<Seq<char>>,
}

pub open spec fn empty_partial() -> PartialRec {
    PartialRec {
        id: None,
        crm_id: None,
        is_active: None,
        age: None,
        name: None,
        company: None,
        gender: None,
        email: None,
    }
}

/// Records one member into the partial record.  A known key demands the right
/// value type, within machine range for `age`, and must not repeat; an
/// unknown key is ignored.
pub open spec fn assign(acc: PartialRec, key: Seq<char>, v: Prim) -> Option<PartialRec> {
    if key == key_id() {
        match v {
            Prim::Str(t) => if acc.id is None {
                Some(PartialRec { id: Some(t), ..acc })
            } else {
                None
            },
            _ => None,
        }
    } else if key == key_crm_id() {
        match v {
            Prim::Str(t) => if acc.crm_id is None {
                Some(PartialRec { crm_id: Some(t), ..acc })
            } else {
                None
            },
            _ => None,
        }
    } else if key == key_is_active() {
        match v {
            Prim::Boolean(b) => if acc.is_active is None {
                Some(PartialRec { is_active: Some(b), ..acc })
            } else {
                None
            },
            _ => None,
        }
    } else if key == key_age() {
        match v {
            Prim::Int(n) => if acc.age is None && -0x8000_0000 <= n < 0x8000_0000 {
                Some(PartialRec { age: Some(n), ..acc })
            } else {
                None
            },
            _ => None,
        }
    } else if key == key_name() {
        match v {
            Prim::Str(t) => if acc.name is None {
                Some(PartialRec { name: Some(t), ..acc })
            } else {
                None
            },
            _ => None,
        }
    } else if key == key_company() {
        match v {
            Prim::Str(t) => if acc.company is None {
                Some(PartialRec { company: Some(t), ..acc })
            } else {
                None
            },
            _ => None,
        }
    } else if key == key_gender() {
        match v {
            Prim::Str(t) => if acc.gender is None {
                Some(PartialRec { gender: Some(t), ..acc })
            } else {
                None
            },
            _ => None,
        }
    } else if key == key_email() {
        match v {
            Prim::Str(t) => if acc.email is None {
                Some(PartialRec { email: Some(t), ..acc })
            } else {
                None
            },
            _ => None,
        }
    } else {
        Some(acc)
    }
}

/// Parses the members of the record object, `i` standing on the opening quote
/// of a key.  Yields the gathered attributes and the index of the character
/// after the last member, whitespace skipped: the position where the closing
/// brace must stand.
pub open spec fn parse_members(s: Seq<char>, i: int, acc: PartialRec) -> Option<(PartialRec, int)>
    decreases s.len() - i,
{
    if i < 0 || i >= s.len() || s[i] != '"' {
        None
    } else {
        match parse_jstring(s, i + 1) {
            None => None,
            Some((key, j)) => {
                let c = skip_ws(s, j);
                if 0 <= c < s.len() && s[c] == ':' {
                    match parse_member_value(s, skip_ws(s, c + 1)) {
                        None => None,
                        Some((v, k)) => match assign(acc, key, v) {
                            None => None,
                            Some(acc2) => {
                                let e = skip_ws(s, k);
                                if 0 <= e < s.len() && s[e] == ',' {
                                    let n = skip_ws(s, e + 1);
                                    if i < n <= s.len() {
                                        parse_members(s, n, acc2)
                                    } else {
                                        None
                                    }
                                } else {
                                    Some((acc2, e))
                                }
                            },
                        },
                    }
                } else {
                    None
                }
            },
        }
    }
}

/// A record from the gathered attributes, if every one of them was present.
pub open spec fn complete(acc: PartialRec) -> Option<RecModel> {
    if acc.id is Some && acc.crm_id is Some && acc.is_active is Some && acc.age is Some
        && acc.name is Some && acc.company is Some && acc.gender is Some && acc.email is Some {
        Some(
            RecModel {
                id: acc.id->Some_0,
                crm_id: acc.crm_id->Some_0,
                is_active: acc.is_active->Some_0,
                age: acc.age->Some_0,
                name: acc.name->Some_0,
                company: acc.company->Some_0,
                gender: acc.gender->Some_0,
                email: acc.email->Some_0,
            },
        )
    } else {
        None
    }
}

/// The wire format: what a character sequence means as a record, if anything.
/// The whole text must be one object with every attribute present.
pub open spec fn parse_record(s: Seq<char>) -> Option<RecModel> {
    let i0 = skip_ws(s, 0);
    if 0 <= i0 < s.len() && s[i0] == '{' {
        let i1 = skip_ws(s, i0 + 1);
        if 0 <= i1 < s.len() && s[i1] == '}' {
            if skip_ws(s, i1 + 1) == s.len() {
                complete(empty_partial())
            } else {
                None
            }
        } else {
            match parse_members(s, i1, empty_partial()) {
                None => None,
                Some((acc, e)) => {
                    if 0 <= e < s.len() && s[e] == '}' && skip_ws(s, e + 1) == s.len() {
                        complete(acc)
                    } else {
                        None
                    }
                },
            }
        }
    } else {
        None
    }
}

} // verus!
