//! Encoding of HTTP responses: a protocol label, a status line, a header
//! table and a body, serialized deterministically with the headers sorted by
//! key.

use vstd::prelude::*;

use crate::strmap::StrMap;
use crate::text::lex_le;
use crate::text::str_le;
use crate::text::utf8_str;
use vstd::utf8::decode_utf8;
use vstd::utf8::encode_utf8;
use vstd::utf8::valid_utf8;

verus! {

/// A response message to be serialized.
#[derive(Debug)]
pub struct Message {
    pub protocol: String,
    pub status: String,
    pub headers: StrMap<String>,
    pub body: Vec<u8>,
}

/// The (key view, value view) pairs of a vector of owned header pairs.
pub open spec fn pairs_view(s: Seq<(String, String)>) -> Seq<(Seq<char>, Seq<char>)> {
    Seq::new(s.len(), |i: int| (s[i].0@, s[i].1@))
}

/// Inserts a pair into a key-sorted sequence, before the first entry whose
/// key is not smaller.
pub open spec fn spec_sort_insert(
    p: (Seq<char>, Seq<char>),
    s: Seq<(Seq<char>, Seq<char>)>,
) -> Seq<(Seq<char>, Seq<char>)>
    decreases s.len(),
{
    if s.len() == 0 {
        seq![p]
    } else if lex_le(p.0, s[0].0) {
        seq![p] + s
    } else {
        seq![s[0]] + spec_sort_insert(p, s.drop_first())
    }
}

/// The header pairs sorted by key, ascending.
pub open spec fn spec_sort_pairs(s: Seq<(Seq<char>, Seq<char>)>) -> Seq<(Seq<char>, Seq<char>)>
    decreases s.len(),
{
    if s.len() == 0 {
        Seq::empty()
    } else {
        spec_sort_insert(s[0], spec_sort_pairs(s.drop_first()))
    }
}

/// Header pairs rendered in order, each as `Key: Value` followed by CRLF.
pub open spec fn spec_render_header_pairs(s: Seq<(Seq<char>, Seq<char>)>) -> Seq<char>
    decreases s.len(),
{
    if s.len() == 0 {
        Seq::empty()
    } else {
        spec_render_header_pairs(s.drop_last()) + s.last().0 + ": "@ + s.last().1 + "\r\n"@
    }
}

/// The whole header section: status line, headers sorted by key, and the
/// blank line that ends the section.
pub open spec fn spec_header_text(
    protocol: Seq<char>,
    status: Seq<char>,
    kvs: Seq<(Seq<char>, Seq<char>)>,
) -> Seq<char> {
    protocol + " "@ + status + "\r\n"@ + spec_render_header_pairs(spec_sort_pairs(kvs)) + "\r\n"@
}

/// `spec_sort_insert` places the pair exactly at the first position whose
/// key is not smaller.
proof fn lemma_sort_insert_at(p: (Seq<char>, Seq<char>), s: Seq<(Seq<char>, Seq<char>)>, j: int)
    requires
        0 <= j <= s.len(),
        forall|k: int| 0 <= k < j ==> !lex_le(p.0, (#[trigger] s[k]).0),
        j < s.len() ==> lex_le(p.0, s[j].0),
    ensures
        spec_sort_insert(p, s) == s.take(j) + seq![p] + s.skip(j),
    decreases j,
{
    if s.len() == 0 {
        assert(s.take(0) =~= s);
        assert(s.skip(0) =~= s);
        assert(s.take(0) + seq![p] + s.skip(0) =~= seq![p]);
    } else if j == 0 {
        assert(s.take(0) + seq![p] + s.skip(0) =~= seq![p] + s);
    } else {
        lemma_sort_insert_at(p, s.drop_first(), j - 1);
        assert(s.drop_first().take(j - 1) =~= s.take(j).drop_first());
        assert(s.drop_first().skip(j - 1) =~= s.skip(j));
        assert(seq![s[0]] + (s.drop_first().take(j - 1) + seq![p] + s.drop_first().skip(j - 1))
            =~= s.take(j) + seq![p] + s.skip(j));
    }
}

/// The owned header pairs of `m`, sorted by key ascending.
fn sort_header_pairs(m: &StrMap<String>) -> (r: Vec<(String, String)>)
    ensures
        pairs_view(r@) == spec_sort_pairs(m.kvs()),
{
    let n = m.entries.len();
    let mut out: Vec<(String, String)> = Vec::new();
    proof {
        m.lemma_kvs();
        assert(m.kvs().skip(n as int) =~= Seq::<(Seq<char>, Seq<char>)>::empty());
        assert(pairs_view(out@) =~= spec_sort_pairs(m.kvs().skip(n as int)));
    }
    let mut idx: usize = n;
    while idx > 0
        invariant
            idx <= n,
            n == m.entries@.len(),
            n == m.kvs().len(),
            pairs_view(out@) == spec_sort_pairs(m.kvs().skip(idx as int)),
        decreases idx,
    {
        idx = idx - 1;
        let e = &m.entries[idx];
        let key = e.0.clone();
        let value = e.1.clone();
        proof {
            m.lemma_kvs();
            assert(m.kvs()[idx as int] == (e.0@, e.1@));
        }
        let ghost sorted = pairs_view(out@);
        let mut j: usize = 0;
        let len = out.len();
        while j < len && !str_le(key.as_str(), out[j].0.as_str())
            invariant
                j <= len,
                len == out@.len(),
                key@ == e.0@,
                sorted == pairs_view(out@),
                forall|k: int| 0 <= k < j ==> !lex_le(key@, (#[trigger] sorted[k]).0),
            decreases len - j,
        {
            j = j + 1;
        }
        proof {
            lemma_sort_insert_at((key@, value@), sorted, j as int);
        }
        out.insert(j, (key, value));
        proof {
            assert(pairs_view(out@) =~= sorted.take(j as int) + seq![(e.0@, e.1@)] + sorted.skip(
                j as int,
            ));
            let t = m.kvs().skip(idx as int);
            assert(t[0] == m.kvs()[idx as int]);
            assert(t.drop_first() =~= m.kvs().skip(idx + 1));
        }
    }
    proof {
        assert(m.kvs().skip(0) =~= m.kvs());
    }
    out
}

impl Message {
    /// Assembles a response message from its four parts.
    pub fn new(protocol: String, status: String, headers: StrMap<String>, body: Vec<u8>) -> (r:
        Message)
        ensures
            r.protocol == protocol,
            r.status == status,
            r.headers == headers,
            r.body == body,
    {
        Message { protocol, status, headers, body }
    }

    /// The header section as text: `<protocol> <status>` and the headers
    /// sorted by key, each line CRLF-terminated, ending with a blank line.
    pub fn header_to_string(&self) -> (r: String)
        requires
            self.headers.wf(),
        ensures
            r@ == spec_header_text(self.protocol@, self.status@, self.headers.kvs()),
    {
        let mut response = String::new();
        response.append(self.protocol.as_str());
        response.append(" ");
        response.append(self.status.as_str());
        response.append("\r\n");
        let sorted = sort_header_pairs(&self.headers);
        let ghost sorted_view = spec_sort_pairs(self.headers.kvs());
        let ghost base = response@;
        let ns = sorted.len();
        let mut i: usize = 0;
        proof {
            assert(sorted_view.take(0) =~= Seq::<(Seq<char>, Seq<char>)>::empty());
        }
        while i < ns
            invariant
                i <= ns,
                ns == sorted@.len(),
                pairs_view(sorted@) == sorted_view,
                response@ == base + spec_render_header_pairs(sorted_view.take(i as int)),
            decreases ns - i,
        {
            let e = &sorted[i];
            proof {
                assert(sorted_view[i as int] == (e.0@, e.1@));
            }
            response.append(e.0.as_str());
            response.append(": ");
            response.append(e.1.as_str());
            response.append("\r\n");
            proof {
                assert(sorted_view.take(i + 1).drop_last() =~= sorted_view.take(i as int));
                assert(sorted_view.take(i + 1).last() == sorted_view[i as int]);
            }
            i = i + 1;
        }
        proof {
            assert(sorted_view.take(ns as int) =~= sorted_view);
        }
        response.append("\r\n");
        response
    }

    /// The whole response as text: the header section followed by the body,
    /// when the body bytes are valid UTF-8.
    pub fn to_string(&mut self) -> (r: String)
        requires
            old(self).headers.wf(),
        ensures
            *final(self) == *old(self),
            r@ == spec_header_text(old(self).protocol@, old(self).status@, old(self).headers.kvs())
                + (if old(self).body@.len() > 0 && valid_utf8(old(self).body@) {
                decode_utf8(old(self).body@)
            } else {
                Seq::<char>::empty()
            }),
    {
        let mut response = self.header_to_string();
        let ghost header = response@;
        if self.body.len() > 0 {
            if let Some(body_str) = utf8_str(self.body.as_slice()) {
                response.append(body_str);
            }
        }
        proof {
            if !(self.body@.len() > 0 && valid_utf8(self.body@)) {
                assert(response@ =~= header + Seq::<char>::empty());
            }
        }
        response
    }

    /// The whole response as bytes: the UTF-8 bytes of the header section
    /// followed by the body bytes, which are moved out of the message.
    pub fn to_bytes(&mut self) -> (r: Vec<u8>)
        requires
            old(self).headers.wf(),
        ensures
            final(self).protocol == old(self).protocol,
            final(self).status == old(self).status,
            final(self).headers == old(self).headers,
            final(self).body@ == Seq::<u8>::empty(),
            r@ == encode_utf8(
                spec_header_text(
                    old(self).protocol@,
                    old(self).status@,
                    old(self).headers.kvs(),
                ),
            ) + old(self).body@,
    {
        let header = self.header_to_string();
        let mut response = header.as_str().as_bytes_vec();
        let ghost header_bytes = response@;
        if self.body.len() > 0 {
            response.append(&mut self.body);
        } else {
            proof {
                assert(self.body@ =~= Seq::<u8>::empty());
                assert(response@ =~= header_bytes + old(self).body@);
            }
        }
        response
    }
}

} // verus!
