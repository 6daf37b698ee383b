//! Canonical encoder for the record wire format: members in schema order, no
//! whitespace, minimal escapes.
use crate::json::{
    key_age, key_company, key_crm_id, key_email, key_gender, key_id, key_is_active, key_name,
};
use crate::record::DomainRecord;
use crate::record::RecModel;
use crate::text::chars_to_string;
use vstd::prelude::*;

verus! {

/// Lowercase hexadecimal digit for a value below 16.
pub open spec fn hex_digit(d: int) -> char {
    if d < 10 {
        ((48 + d) as u8) as char
    } else {
        ((87 + d) as u8) as char
    }
}

/// How one character of a field value appears in the wire text.
pub open spec fn esc_char(c: char) -> Seq<char> {
    if c == '"' {
        seq!['\\', '"']
    } else if c == '\\' {
        seq!['\\', '\\']
    } else if c == '\u{8}' {
        seq!['\\', 'b']
    } else if c == '\u{c}' {
        seq!['\\', 'f']
    } else if c == '\n' {
        seq!['\\', 'n']
    } else if c == '\r' {
        seq!['\\', 'r']
    } else if c == '\t' {
        seq!['\\', 't']
    } else if (c as u32) < 0x20 {
        seq!['\\', 'u', '0', '0', hex_digit(c as u32 as int / 16), hex_digit(c as u32 as int % 16)]
    } else {
        seq![c]
    }
}

/// A field value with every character escaped as needed.
pub open spec fn esc_seq(t: Seq<char>) -> Seq<char>
    decreases t.len(),
{
    if t.len() == 0 {
        Seq::empty()
    } else {
        esc_char(t[0]) + esc_seq(t.skip(1))
    }
}

/// A field value as a wire string, quotes included.
pub open spec fn quoted(t: Seq<char>) -> Seq<char> {
    seq!['"'] + esc_seq(t) + seq!['"']
}

/// An attribute name as a wire string; names need no escaping.
pub open spec fn kquoted(k: Seq<char>) -> Seq<char> {
    seq!['"'] + k + seq!['"']
}

/// Decimal digits of a non-negative integer, most significant first.
pub open spec fn dec_digits(n: int) -> Seq<char>
    decreases n,
{
    if n < 10 {
        seq![((48 + n) as u8) as char]
    } else {
        dec_digits(n / 10) + seq![((48 + n % 10) as u8) as char]
    }
}

/// An integer as wire text.
pub open spec fn int_chars(n: int) -> Seq<char> {
    if n < 0 {
        seq!['-'] + dec_digits(-n)
    } else {
        dec_digits(n)
    }
}

pub open spec fn bool_chars(b: bool) -> Seq<char> {
    if b {
        seq!['t', 'r', 'u', 'e']
    } else {
        seq!['f', 'a', 'l', 's', 'e']
    }
}

/// One member of the record object: quoted name, colon, value text.
pub open spec fn member_text(k: Seq<char>, vtext: Seq<char>) -> Seq<char> {
    kquoted(k) + seq![':'] + vtext
}

/// The canonical wire text of a record: one object holding every attribute,
/// in schema order.  The concatenation nests to the right, member by member.
pub open spec fn json_text(m: RecModel) -> Seq<char> {
    seq!['{'] + (member_text(key_id(), quoted(m.id)) + (seq![','] + (member_text(
        key_crm_id(),
        quoted(m.crm_id),
    ) + (seq![','] + (member_text(key_is_active(), bool_chars(m.is_active)) + (seq![','] + (
    member_text(key_age(), int_chars(m.age)) + (seq![','] + (member_text(
        key_name(),
        quoted(m.name),
    ) + (seq![','] + (member_text(key_company(), quoted(m.company)) + (seq![','] + (member_text(
        key_gender(),
        quoted(m.gender),
    ) + (seq![','] + (member_text(key_email(), quoted(m.email)) + seq!['}'])))))))))))))))
}

/// Escaping distributes over extension by one character.
pub proof fn lemma_esc_snoc(t: Seq<char>, c: char)
    ensures
        esc_seq(t.push(c)) == esc_seq(t) + esc_char(c),
    decreases t.len(),
{
    if t.len() == 0 {
        assert(t.push(c)[0] == c);
        assert(t.push(c).skip(1) =~= Seq::<char>::empty());
        assert(esc_seq(t.push(c)) == esc_char(c) + esc_seq(Seq::<char>::empty()));
        assert(esc_seq(t.push(c)) =~= esc_char(c));
        assert(esc_seq(t) + esc_char(c) =~= esc_char(c));
    } else {
        assert(t.push(c).skip(1) =~= t.skip(1).push(c));
        lemma_esc_snoc(t.skip(1), c);
        assert(t.push(c)[0] == t[0]);
        assert(esc_seq(t.push(c)) =~= esc_seq(t) + esc_char(c));
    }
}

pub(crate) fn push_str_raw(out: &mut Vec<char>, s: &str)
    ensures
        final (out)@ == old(out)@ + s@,
{
    let n = s.unicode_len();
    let mut j: usize = 0;
    while j < n
        invariant
            j <= n,
            n == s@.len(),
            out@ == old(out)@ + s@.subrange(0, j as int),
        decreases n - j,
    {
        out.push(s.get_char(j));
        proof {
            assert(s@.subrange(0, j as int + 1) =~= s@.subrange(0, j as int).push(s@[j as int]));
        }
        j += 1;
    }
    proof {
        assert(s@.subrange(0, n as int) =~= s@);
    }
}

fn push_esc_char(out: &mut Vec<char>, c: char)
    ensures
        final (out)@ == old(out)@ + esc_char(c),
{
    if c == '"' {
        out.push('\\');
        out.push('"');
    } else if c == '\\' {
        out.push('\\');
        out.push('\\');
    } else if c == '\u{8}' {
        out.push('\\');
        out.push('b');
    } else if c == '\u{c}' {
        out.push('\\');
        out.push('f');
    } else if c == '\n' {
        out.push('\\');
        out.push('n');
    } else if c == '\r' {
        out.push('\\');
        out.push('r');
    } else if c == '\t' {
        out.push('\\');
        out.push('t');
    } else if (c as u32) < 0x20 {
        out.push('\\');
        out.push('u');
        out.push('0');
        out.push('0');
        let u = c as u32;
        let hi = u / 16;
        let lo = u % 16;
        out.push(
            if hi < 10 {
                ((48 + hi) as u8) as char
            } else {
                ((87 + hi) as u8) as char
            },
        );
        out.push(
            if lo < 10 {
                ((48 + lo) as u8) as char
            } else {
                ((87 + lo) as u8) as char
            },
        );
        proof {
            assert(out@ =~= old(out)@ + esc_char(c));
        }
    } else {
        out.push(c);
    }
    proof {
        assert(out@ =~= old(out)@ + esc_char(c));
    }
}

fn push_quoted(out: &mut Vec<char>, s: &String)
    ensures
        final (out)@ == old(out)@ + quoted(s@),
{
    out.push('"');
    let st = s.as_str();
    let n = st.unicode_len();
    let mut j: usize = 0;
    while j < n
        invariant
            j <= n,
            n == st@.len(),
            st@ == s@,
            out@ == old(out)@ + seq!['"'] + esc_seq(s@.subrange(0, j as int)),
        decreases n - j,
    {
        proof {
            assert(s@.subrange(0, j as int + 1) =~= s@.subrange(0, j as int).push(s@[j as int]));
            lemma_esc_snoc(s@.subrange(0, j as int), s@[j as int]);
        }
        push_esc_char(out, st.get_char(j));
        j += 1;
    }
    out.push('"');
    proof {
        assert(s@.subrange(0, n as int) =~= s@);
        assert(out@ =~= old(out)@ + quoted(s@));
    }
}

pub(crate) fn push_u64_digits(out: &mut Vec<char>, n: u64)
    ensures
        final (out)@ == old(out)@ + dec_digits(n as int),
    decreases n,
{
    if n < 10 {
        out.push(((48 + n) as u8) as char);
        proof {
            assert(out@ =~= old(out)@ + dec_digits(n as int));
        }
    } else {
        push_u64_digits(out, n / 10);
        out.push(((48 + n % 10) as u8) as char);
        proof {
            assert(out@ =~= old(out)@ + dec_digits(n as int));
        }
    }
}

fn push_i32(out: &mut Vec<char>, n: i32)
    ensures
        final (out)@ == old(out)@ + int_chars(n as int),
{
    if n < 0 {
        out.push('-');
        let m = (-(n as i64)) as u64;
        push_u64_digits(out, m);
        proof {
            assert(out@ =~= old(out)@ + int_chars(n as int));
        }
    } else {
        push_u64_digits(out, n as u64);
    }
}

/// Serializes a record to its canonical wire text.
#[verifier::rlimit(100)]
pub fn encode_record(rec: &DomainRecord) -> (s: String)
    ensures
        s@ == json_text(rec@),
{
    let mut out: Vec<char> = Vec::new();
    push_str_raw(&mut out, "{\"_id\":");
    push_quoted(&mut out, &rec.id);
    push_str_raw(&mut out, ",\"crmId\":");
    push_quoted(&mut out, &rec.crm_id);
    push_str_raw(&mut out, ",\"isActive\":");
    if rec.is_active {
        push_str_raw(&mut out, "true");
    } else {
        push_str_raw(&mut out, "false");
    }
    push_str_raw(&mut out, ",\"age\":");
    push_i32(&mut out, rec.age);
    push_str_raw(&mut out, ",\"name\":");
    push_quoted(&mut out, &rec.name);
    push_str_raw(&mut out, ",\"company\":");
    push_quoted(&mut out, &rec.company);
    push_str_raw(&mut out, ",\"gender\":");
    push_quoted(&mut out, &rec.gender);
    push_str_raw(&mut out, ",\"email\":");
    push_quoted(&mut out, &rec.email);
    push_str_raw(&mut out, "}");
    proof {
        reveal_strlit("{\"_id\":");
        reveal_strlit(",\"crmId\":");
        reveal_strlit(",\"isActive\":");
        reveal_strlit("true");
        reveal_strlit("false");
        reveal_strlit(",\"age\":");
        reveal_strlit(",\"name\":");
        reveal_strlit(",\"company\":");
        reveal_strlit(",\"gender\":");
        reveal_strlit(",\"email\":");
        reveal_strlit("}");
        assert(("{\"_id\":")@ =~= seq!['{'] + kquoted(key_id()) + seq![':']);
        assert((",\"crmId\":")@ =~= seq![','] + kquoted(key_crm_id()) + seq![':']);
        assert((",\"isActive\":")@ =~= seq![','] + kquoted(key_is_active()) + seq![':']);
        assert(("true")@ =~= bool_chars(true));
        assert(("false")@ =~= bool_chars(false));
        assert((",\"age\":")@ =~= seq![','] + kquoted(key_age()) + seq![':']);
        assert((",\"name\":")@ =~= seq![','] + kquoted(key_name()) + seq![':']);
        assert((",\"company\":")@ =~= seq![','] + kquoted(key_company()) + seq![':']);
        assert((",\"gender\":")@ =~= seq![','] + kquoted(key_gender()) + seq![':']);
        assert((",\"email\":")@ =~= seq![','] + kquoted(key_email()) + seq![':']);
        assert(("}")@ =~= seq!['}']);
        assert(out@ =~= json_text(rec@));
    }
    chars_to_string(&out)
}

} // verus!
