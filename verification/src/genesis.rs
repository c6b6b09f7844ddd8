//! The genesis document: the one-time bootstrap payload, a single-field
//! textual document holding an arbitrary string.

use vstd::prelude::*;
use vstd::utf8::{decode_utf8, encode_utf8, valid_utf8};
use crate::codec;
use crate::Error;

verus! {

broadcast use vstd::utf8::encode_utf8_valid_utf8, vstd::utf8::encode_utf8_decode_utf8, vstd::utf8::decode_utf8_encode_utf8;

/// The opening of the genesis document, through the quote that opens the
/// data string.
pub open spec fn lit_genesis() -> Seq<u8> {
    seq![0x7bu8, 0x22, 0x64, 0x61, 0x74, 0x61, 0x22, 0x3a, 0x22]
}

/// Builds the opening literal.
fn lit_genesis_vec() -> (v: Vec<u8>)
    ensures
        v@ == lit_genesis(),
{
    let mut v: Vec<u8> = Vec::new();
    v.push(0x7b);
    v.push(0x22);
    v.push(0x64);
    v.push(0x61);
    v.push(0x74);
    v.push(0x61);
    v.push(0x22);
    v.push(0x3a);
    v.push(0x22);
    proof {
        assert(v@ =~= lit_genesis());
    }
    v
}

/// String-body escaping: a quote or backslash gets a backslash before it;
/// every other byte stands for itself.
pub open spec fn escape(bs: Seq<u8>) -> Seq<u8>
    decreases bs.len(),
{
    if bs.len() == 0 {
        seq![]
    } else if bs[0] == 0x22 || bs[0] == 0x5c {
        seq![0x5cu8, bs[0]] + escape(bs.drop_first())
    } else {
        seq![bs[0]] + escape(bs.drop_first())
    }
}

/// The escaping of one byte.
proof fn lemma_escape_single(b: u8)
    ensures
        b == 0x22 || b == 0x5c ==> escape(seq![b]) == seq![0x5cu8, b],
        b != 0x22 && b != 0x5c ==> escape(seq![b]) == seq![b],
{
    let single = seq![b];
    assert(single.drop_first() =~= Seq::<u8>::empty());
    assert(escape(Seq::<u8>::empty()) == Seq::<u8>::empty());
    if b == 0x22 || b == 0x5c {
        assert(escape(single) =~= seq![0x5cu8, b]);
    } else {
        assert(escape(single) =~= seq![b]);
    }
}

/// Escaping distributes over concatenation.
pub proof fn lemma_escape_concat(a: Seq<u8>, b: Seq<u8>)
    ensures
        escape(a + b) == escape(a) + escape(b),
    decreases a.len(),
{
    if a.len() == 0 {
        assert(a + b =~= b);
        assert(escape(a) + escape(b) =~= escape(b));
    } else {
        lemma_escape_concat(a.drop_first(), b);
        assert((a + b).drop_first() =~= a.drop_first() + b);
        assert(escape(a + b) =~= escape(a) + escape(b));
    }
}

/// The exact string-body parse from position `p`: collects bytes up to
/// the first unescaped quote, resolving the two escapes; `None` when the
/// input ends first or an unknown escape appears. On success the returned
/// position is that of the closing quote.
pub open spec fn parse_str(s: Seq<u8>, p: int) -> Option<(Seq<u8>, int)>
    decreases s.len() - p when p <= s.len()
{
    if p < 0 || p >= s.len() {
        None
    } else if s[p] == 0x22 {
        Some((seq![], p))
    } else if s[p] == 0x5c {
        if p + 1 < s.len() && (s[p + 1] == 0x22 || s[p + 1] == 0x5c) {
            match parse_str(s, p + 2) {
                Some(rq) => Some((seq![s[p + 1]] + rq.0, rq.1)),
                None => None,
            }
        } else {
            None
        }
    } else {
        match parse_str(s, p + 1) {
            Some(rq) => Some((seq![s[p]] + rq.0, rq.1)),
            None => None,
        }
    }
}

/// The canonical genesis document for a data payload.
pub open spec fn encode_genesis_spec(bs: Seq<u8>) -> Seq<u8> {
    lit_genesis() + escape(bs) + codec::lit_end()
}

/// The exact genesis document parse, yielding the unescaped data bytes.
pub open spec fn decode_genesis_spec(s: Seq<u8>) -> Option<Seq<u8>> {
    if s.len() < 9 || s.subrange(0, 9) != lit_genesis() {
        None
    } else {
        match parse_str(s, 9) {
            None => None,
            Some(rq) => if rq.1 + 2 == s.len() && s[rq.1 + 1] == 0x7d {
                Some(rq.0)
            } else {
                None
            },
        }
    }
}

/// The string-body parser undoes escaping: an escaped body followed by a
/// closing quote parses back to the original bytes.
pub proof fn lemma_parse_escape(s: Seq<u8>, p: int, bs: Seq<u8>)
    requires
        0 <= p,
        p + escape(bs).len() < s.len(),
        forall|i: int| 0 <= i < escape(bs).len() ==> s[p + i] == #[trigger] escape(bs)[i],
        s[p + escape(bs).len()] == 0x22,
    ensures
        parse_str(s, p) == Some((bs, p + escape(bs).len())),
    decreases bs.len(),
{
    if bs.len() == 0 {
        assert(s[p] == 0x22);
    } else {
        let rest = bs.drop_first();
        if bs[0] == 0x22 || bs[0] == 0x5c {
            assert(escape(bs) == seq![0x5cu8, bs[0]] + escape(rest));
            assert(s[p] == escape(bs)[0] && escape(bs)[0] == 0x5c);
            assert(s[p + 1] == escape(bs)[1] && escape(bs)[1] == bs[0]);
            assert forall|i: int| 0 <= i < escape(rest).len() implies s[p + 2 + i] == #[trigger] escape(
                rest,
            )[i] by {
                assert(escape(bs)[2 + i] == escape(rest)[i]);
            }
            lemma_parse_escape(s, p + 2, rest);
            assert(seq![s[p + 1]] + rest =~= bs);
        } else {
            assert(escape(bs) == seq![bs[0]] + escape(rest));
            assert(s[p] == escape(bs)[0] && escape(bs)[0] == bs[0]);
            assert forall|i: int| 0 <= i < escape(rest).len() implies s[p + 1 + i] == #[trigger] escape(
                rest,
            )[i] by {
                assert(escape(bs)[1 + i] == escape(rest)[i]);
            }
            lemma_parse_escape(s, p + 1, rest);
            assert(seq![s[p]] + rest =~= bs);
        }
    }
}

/// Round trip: the genesis parser accepts every canonical genesis
/// document and recovers exactly the data bytes it was encoded from.
pub proof fn lemma_decode_encode_genesis(bs: Seq<u8>)
    ensures
        decode_genesis_spec(encode_genesis_spec(bs)) == Some(bs),
{
    let e = encode_genesis_spec(bs);
    let n = escape(bs).len() as int;
    assert(e.len() == 9 + n + 2);
    assert(e.subrange(0, 9) =~= lit_genesis());
    assert forall|i: int| 0 <= i < n implies e[9 + i] == #[trigger] escape(bs)[i] by {}
    assert(e[9 + n] == codec::lit_end()[0]);
    assert(e[9 + n + 1] == codec::lit_end()[1]);
    lemma_parse_escape(e, 9, bs);
}

/// Round trip at the payload level: the canonical document of a string's
/// UTF-8 bytes decodes back to those bytes, they are valid UTF-8, and
/// they decode back to the same string.
pub proof fn lemma_genesis_round_trip(chars: Seq<char>)
    ensures
        decode_genesis_spec(encode_genesis_spec(encode_utf8(chars))) == Some(encode_utf8(chars)),
        valid_utf8(encode_utf8(chars)),
        decode_utf8(encode_utf8(chars)) == chars,
{
    lemma_decode_encode_genesis(encode_utf8(chars));
}

/// The string-body parser accepts only escaped text: a successful parse
/// means the consumed input is exactly the escaping of what came out,
/// and stops on the closing quote.
pub proof fn lemma_parse_str_canonical(s: Seq<u8>, p: int)
    requires
        0 <= p <= s.len(),
        parse_str(s, p) is Some,
    ensures
        ({
            let rq = parse_str(s, p)->Some_0;
            &&& p + escape(rq.0).len() == rq.1
            &&& 0 <= p <= rq.1 < s.len()
            &&& s.subrange(p, rq.1) == escape(rq.0)
            &&& s[rq.1] == 0x22
        }),
    decreases s.len() - p,
{
    let rq = parse_str(s, p)->Some_0;
    if s[p] == 0x22 {
        assert(s.subrange(p, p as int) =~= escape(rq.0));
    } else if s[p] == 0x5c {
        let c = s[p + 1];
        let inner = parse_str(s, p + 2)->Some_0;
        lemma_parse_str_canonical(s, p + 2);
        lemma_escape_single(c);
        lemma_escape_concat(seq![c], inner.0);
        assert(seq![c] + inner.0 == rq.0);
        assert(escape(rq.0) =~= seq![0x5cu8, c] + escape(inner.0));
        assert(s.subrange(p, rq.1) =~= seq![s[p], s[p + 1]] + s.subrange(p + 2, rq.1));
    } else {
        let inner = parse_str(s, p + 1)->Some_0;
        lemma_parse_str_canonical(s, p + 1);
        lemma_escape_single(s[p]);
        lemma_escape_concat(seq![s[p]], inner.0);
        assert(seq![s[p]] + inner.0 == rq.0);
        assert(escape(rq.0) =~= seq![s[p]] + escape(inner.0));
        assert(s.subrange(p, rq.1) =~= seq![s[p]] + s.subrange(p + 1, rq.1));
    }
}

/// Canonicity: the genesis parser accepts nothing but canonical
/// documents. When a parse succeeds, the input is exactly the encoding
/// of the data bytes parsed out of it.
pub proof fn lemma_decode_genesis_canonical(s: Seq<u8>)
    requires
        decode_genesis_spec(s) is Some,
    ensures
        s == encode_genesis_spec(decode_genesis_spec(s)->Some_0),
{
    let bs = decode_genesis_spec(s)->Some_0;
    let rq = parse_str(s, 9)->Some_0;
    lemma_parse_str_canonical(s, 9);
    let q = rq.1;
    let e = encode_genesis_spec(bs);
    assert(e.len() == 9 + escape(bs).len() + 2);
    assert(s.len() == q + 2);
    assert forall|i: int| 0 <= i < s.len() implies s[i] == e[i] by {
        if i < 9 {
            assert(s.subrange(0, 9)[i] == s[i]);
            assert(e[i] == lit_genesis()[i]);
        } else if i < q {
            assert(s.subrange(9, q)[i - 9] == s[i]);
            assert(e[i] == escape(bs)[i - 9]);
        } else {
            assert(s[q] == 0x22 && s[q + 1] == 0x7d);
            assert(e[i] == codec::lit_end()[i - q]);
        }
    }
    assert(s =~= e);
}

/// Tracks the forward scan of the string body: what the parse from the
/// scan's current position must be for the parse of the whole body to
/// succeed with the bytes collected so far.
spec fn scan_state(s: Seq<u8>, p: int, acc: Seq<u8>) -> bool {
    match parse_str(s, p) {
        Some(rq) => parse_str(s, 9) == Some((acc + rq.0, rq.1)),
        None => parse_str(s, 9) is None,
    }
}

/// The genesis payload: one arbitrary string, used only to build the
/// height-zero block when the chain has no history yet.
#[derive(Debug)]
pub struct Genesis {
    /// The payload text; its UTF-8 bytes become the genesis block's data.
    pub data: String,
}

impl Default for Genesis {
    /// The stock payload used when none is supplied.
    fn default() -> (r: Self)
        ensures
            r.data@ == "Hello from Rust VM!"@,
    {
        Genesis { data: "Hello from Rust VM!".to_owned() }
    }
}

impl Clone for Genesis {
    /// An exact copy of the payload.
    fn clone(&self) -> (r: Self)
        ensures
            r.data@ == self.data@,
    {
        Genesis { data: self.data.clone() }
    }
}

impl PartialEq for Genesis {
    fn eq(&self, other: &Genesis) -> bool {
        self.data == other.data
    }
}

impl vstd::std_specs::cmp::PartialEqSpecImpl for Genesis {
    open spec fn obeys_eq_spec() -> bool {
        true
    }

    open spec fn eq_spec(&self, other: &Genesis) -> bool {
        self.data@ == other.data@
    }
}

impl Genesis {
    /// Encodes the payload to its canonical document. Never fails; the
    /// `Result` mirrors the operation surface.
    pub fn to_vec(&self) -> (r: Result<Vec<u8>, Error>)
        ensures
            r is Ok,
            r matches Ok(v) ==> v@ == encode_genesis_spec(encode_utf8(self.data@)),
    {
        let bs = self.data.as_str().as_bytes();
        let mut out = lit_genesis_vec();
        let ghost base = out@;
        let mut i: usize = 0;
        while i < bs.len()
            invariant
                i <= bs@.len(),
                out@ == base + escape(bs@.take(i as int)),
            decreases bs@.len() - i,
        {
            let b = bs[i];
            if b == 0x22 || b == 0x5c {
                out.push(0x5c);
                out.push(b);
            } else {
                out.push(b);
            }
            proof {
                lemma_escape_concat(bs@.take(i as int), seq![bs@[i as int]]);
                lemma_escape_single(bs@[i as int]);
                assert(bs@.take(i + 1) =~= bs@.take(i as int) + seq![bs@[i as int]]);
                assert(out@ =~= base + (escape(bs@.take(i as int)) + escape(seq![bs@[i as int]])));
            }
            i = i + 1;
        }
        proof {
            assert(bs@.take(bs@.len() as int) =~= bs@);
        }
        let end = codec::lit_end_vec();
        out.extend_from_slice(end.as_slice());
        Ok(out)
    }

    /// Decodes a genesis document. Fails exactly when the bytes are not a
    /// genesis document or the payload is not valid UTF-8.
    pub fn from_slice(d: &[u8]) -> (r: Result<Genesis, Error>)
        ensures
            r is Ok <==> (decode_genesis_spec(d@) matches Some(bs) && valid_utf8(bs)),
            r matches Err(e) ==> e == Error::InvalidData,
            r matches Ok(g) ==> {
                &&& decode_genesis_spec(d@) == Some(encode_utf8(g.data@))
                &&& g.data@ == decode_utf8(decode_genesis_spec(d@)->Some_0)
            },
    {
        let slen = d.len();
        let lit = lit_genesis_vec();
        if !codec::match_at(d, 0, &lit) {
            return Err(Error::InvalidData);
        }
        let mut out: Vec<u8> = Vec::new();
        let mut p: usize = 9;
        proof {
            // an empty accumulator leaves the whole parse still to come
            assert(out@ + parse_str(d@, 9)->Some_0.0 =~= parse_str(d@, 9)->Some_0.0);
        }
        while p < slen && d[p] != 0x22
            invariant
                9 <= p <= slen == d@.len(),
                scan_state(d@, p as int, out@),
            decreases slen - p,
        {
            let b = d[p];
            if b == 0x5c {
                if p + 1 >= slen {
                    return Err(Error::InvalidData);
                }
                let c = d[p + 1];
                if c != 0x22 && c != 0x5c {
                    return Err(Error::InvalidData);
                }
                let ghost old_out = out@;
                let ghost old_p = p as int;
                out.push(c);
                p = p + 2;
                proof {
                    if parse_str(d@, p as int) is Some {
                        let rq = parse_str(d@, p as int)->Some_0;
                        assert(parse_str(d@, old_p) == Some((seq![c] + rq.0, rq.1)));
                        assert(old_out + (seq![c] + rq.0) =~= out@ + rq.0);
                        assert(parse_str(d@, 9) == Some((out@ + rq.0, rq.1)));
                    } else {
                        assert(parse_str(d@, old_p) is None);
                    }
                }
            } else {
                let ghost old_out = out@;
                let ghost old_p = p as int;
                out.push(b);
                p = p + 1;
                proof {
                    if parse_str(d@, p as int) is Some {
                        let rq = parse_str(d@, p as int)->Some_0;
                        assert(parse_str(d@, old_p) == Some((seq![b] + rq.0, rq.1)));
                        assert(old_out + (seq![b] + rq.0) =~= out@ + rq.0);
                        assert(parse_str(d@, 9) == Some((out@ + rq.0, rq.1)));
                    } else {
                        assert(parse_str(d@, old_p) is None);
                    }
                }
            }
        }
        if p >= slen {
            return Err(Error::InvalidData);
        }
        proof {
            assert(parse_str(d@, p as int) == Some((Seq::<u8>::empty(), p as int)));
            assert(out@ + Seq::<u8>::empty() =~= out@);
            assert(parse_str(d@, 9) == Some((out@, p as int)));
        }
        if slen - p != 2 {
            return Err(Error::InvalidData);
        }
        if d[p + 1] != 0x7d {
            return Err(Error::InvalidData);
        }
        let ghost bs = out@;
        match codec::string_from_utf8(out) {
            Some(data) => {
                proof {
                    assert(encode_utf8(decode_utf8(bs)) == bs);
                }
                Ok(Genesis { data })
            },
            None => Err(Error::InvalidData),
        }
    }
}

} // verus!
