//! A verified relay pipeline for a log-based message broker.
//!
//! The library covers the consume -> decode -> forward -> re-publish pipeline:
//! decoding raw key/value byte pairs into domain records, draining polled
//! message batches, and driving the per-record forward/publish sequence with
//! monotonically increasing output keys.  Broker and HTTP connectivity are
//! left to the surrounding application; every decision the pipeline takes is
//! specified and proved here.
use vstd::prelude::*;

pub mod consumer;
pub mod decode;
pub mod encode;
pub mod json;
pub mod laws;
pub mod pipeline;
pub mod record;
mod text;

verus! {

/// General settings for the broker client: where to connect, which topic to
/// read and which to write.
pub struct KafkaConfig {
    pub brokers: Vec<String>,
    pub read_topic: String,
    pub write_topic: String,
}

/// How one character of a broker address appears in the description:
/// quotes, backslashes, line breaks and tabs are escaped as the debug
/// rendering writes them; any other character appears verbatim (other
/// control characters are not turned into escapes).
pub open spec fn addr_esc_char(c: char) -> Seq<char> {
    if c == '"' {
        seq!['\\', '"']
    } else if c == '\\' {
        seq!['\\', '\\']
    } else if c == '\n' {
        seq!['\\', 'n']
    } else if c == '\r' {
        seq!['\\', 'r']
    } else if c == '\t' {
        seq!['\\', 't']
    } else {
        seq![c]
    }
}

/// A broker address with every character escaped as needed.
pub open spec fn addr_esc(t: Seq<char>) -> Seq<char>
    decreases t.len(),
{
    if t.len() == 0 {
        Seq::empty()
    } else {
        addr_esc_char(t[0]) + addr_esc(t.skip(1))
    }
}

/// One broker address as it appears in the configuration's description.
pub open spec fn broker_item(b: Seq<char>) -> Seq<char> {
    seq!['"'] + addr_esc(b) + seq!['"']
}

/// Escaping an address distributes over extension by one character.
proof fn lemma_addr_esc_snoc(t: Seq<char>, c: char)
    ensures
        addr_esc(t.push(c)) == addr_esc(t) + addr_esc_char(c),
    decreases t.len(),
{
    if t.len() == 0 {
        assert(t.push(c)[0] == c);
        assert(t.push(c).skip(1) =~= Seq::<char>::empty());
        assert(addr_esc(t.push(c)) == addr_esc_char(c) + addr_esc(Seq::<char>::empty()));
        assert(addr_esc(t.push(c)) =~= addr_esc_char(c));
        assert(addr_esc(t) + addr_esc_char(c) =~= addr_esc_char(c));
    } else {
        assert(t.push(c).skip(1) =~= t.skip(1).push(c));
        lemma_addr_esc_snoc(t.skip(1), c);
        assert(t.push(c)[0] == t[0]);
        assert(addr_esc(t.push(c)) =~= addr_esc(t) + addr_esc_char(c));
    }
}

fn push_addr_char(out: &mut Vec<char>, c: char)
    ensures
        final (out)@ == old(out)@ + addr_esc_char(c),
{
    if c == '"' {
        out.push('\\');
        out.push('"');
    } else if c == '\\' {
        out.push('\\');
        out.push('\\');
    } else if c == '\n' {
        out.push('\\');
        out.push('n');
    } else if c == '\r' {
        out.push('\\');
        out.push('r');
    } else if c == '\t' {
        out.push('\\');
        out.push('t');
    } else {
        out.push(c);
    }
    proof {
        assert(out@ =~= old(out)@ + addr_esc_char(c));
    }
}

fn push_addr_escaped(out: &mut Vec<char>, s: &str)
    ensures
        final (out)@ == old(out)@ + addr_esc(s@),
{
    let n = s.unicode_len();
    let mut j: usize = 0;
    proof {
        assert(s@.subrange(0, 0) =~= Seq::<char>::empty());
    }
    while j < n
        invariant
            j <= n,
            n == s@.len(),
            out@ == old(out)@ + addr_esc(s@.subrange(0, j as int)),
        decreases n - j,
    {
        proof {
            assert(s@.subrange(0, j as int + 1) =~= s@.subrange(0, j as int).push(s@[j as int]));
            lemma_addr_esc_snoc(s@.subrange(0, j as int), s@[j as int]);
        }
        push_addr_char(out, s.get_char(j));
        j += 1;
    }
    proof {
        assert(s@.subrange(0, n as int) =~= s@);
    }
}

/// The broker addresses from position `i` on, quoted, with `", "` before
/// every one but the first of the whole list.
pub open spec fn brokers_text_from(bs: Seq<Seq<char>>, i: int) -> Seq<char>
    decreases bs.len() - i,
{
    if i < 0 || i >= bs.len() {
        Seq::empty()
    } else if i == 0 {
        broker_item(bs[0]) + brokers_text_from(bs, 1)
    } else {
        seq![',', ' '] + broker_item(bs[i]) + brokers_text_from(bs, i + 1)
    }
}

/// The configuration's description: the broker list in brackets, quoted and
/// escaped, then the two topic names, rendered verbatim.
pub open spec fn config_text(bs: Seq<Seq<char>>, rt: Seq<char>, wt: Seq<char>) -> Seq<char> {
    ("KafkaConfig with:\n brokers: [")@ + brokers_text_from(bs, 0) + ("],\n read_topic: ")@ + rt
        + (",\n write_topic: ")@ + wt + ("\n")@
}

impl KafkaConfig {
    /// Builds a configuration from a broker address list and the two topic names.
    pub fn new(servers: &Vec<String>, read_topic: &String, write_topic: &String) -> (r:
        KafkaConfig)
        ensures
            r.brokers.deep_view() == servers.deep_view(),
            r.read_topic@ == read_topic@,
            r.write_topic@ == write_topic@,
    {
        broadcast use vstd::std_specs::vec::vec_clone_deep_view_proof;

        KafkaConfig {
            brokers: servers.clone(),
            read_topic: read_topic.clone(),
            write_topic: write_topic.clone(),
        }
    }

    /// Describes the configuration, as `config_text` lays it out.
    pub fn to_display_string(&self) -> (r: String)
        ensures
            r@ == config_text(self.brokers.deep_view(), self.read_topic@, self.write_topic@),
    {
        let ghost bs = self.brokers.deep_view();
        let mut out: Vec<char> = Vec::new();
        crate::encode::push_str_raw(&mut out, "KafkaConfig with:\n brokers: [");
        let ghost head = out@;
        let mut i: usize = 0;
        proof {
            assert(bs.len() == self.brokers@.len());
        }
        while i < self.brokers.len()
            invariant
                i <= self.brokers.len(),
                bs == self.brokers.deep_view(),
                bs.len() == self.brokers@.len(),
                head + brokers_text_from(bs, 0) == out@ + brokers_text_from(bs, i as int),
            decreases self.brokers.len() - i,
        {
            let ghost before = out@;
            if i > 0 {
                out.push(',');
                out.push(' ');
            }
            out.push('"');
            push_addr_escaped(&mut out, self.brokers[i].as_str());
            out.push('"');
            proof {
                assert(bs[i as int] == self.brokers@[i as int]@);
                if i > 0 {
                    assert(out@ =~= before + (seq![',', ' '] + broker_item(bs[i as int])));
                    assert(before + brokers_text_from(bs, i as int) =~= out@ + brokers_text_from(
                        bs,
                        i as int + 1,
                    ));
                } else {
                    assert(out@ =~= before + broker_item(bs[i as int]));
                    assert(before + brokers_text_from(bs, i as int) =~= out@ + brokers_text_from(
                        bs,
                        i as int + 1,
                    ));
                }
            }
            i += 1;
        }
        proof {
            assert(brokers_text_from(bs, self.brokers@.len() as int) =~= Seq::<char>::empty());
            assert(out@ =~= head + brokers_text_from(bs, 0));
        }
        crate::encode::push_str_raw(&mut out, "],\n read_topic: ");
        crate::encode::push_str_raw(&mut out, self.read_topic.as_str());
        crate::encode::push_str_raw(&mut out, ",\n write_topic: ");
        crate::encode::push_str_raw(&mut out, self.write_topic.as_str());
        crate::encode::push_str_raw(&mut out, "\n");
        proof {
            assert(out@ =~= config_text(bs, self.read_topic@, self.write_topic@));
        }
        crate::text::chars_to_string(&out)
    }
}

} // verus!
