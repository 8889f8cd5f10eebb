//! The body of a mock request or response: an ordered sequence of binary
//! chunks. Chunk boundaries matter for streaming, but equality and length
//! are defined over the concatenation of all remaining chunks.

use vstd::prelude::*;
use vstd::std_specs::cmp::PartialEqSpec;

verus! {

/// The concatenation of a sequence of chunks into one byte sequence.
pub open spec fn concat_of(chunks: Seq<Seq<u8>>) -> Seq<u8>
    decreases chunks.len(),
{
    if chunks.len() == 0 {
        Seq::empty()
    } else {
        chunks[0] + concat_of(chunks.skip(1))
    }
}

/// serde_json's dynamic JSON value, declared opaquely so that it can
/// stand in signatures; the library never looks inside one.
#[verifier::external_type_specification]
#[verifier::external_body]
pub struct ExJsonValue(serde_json::Value);

/// The serialized JSON bytes of a value: the result of serde_json's
/// compact encoding, a function of the value alone.
pub uninterp spec fn json_bytes_of(value: serde_json::Value) -> Seq<u8>;

/// Relies on serde_json::to_vec: returns the compact JSON encoding of
/// the value, which depends on the value alone. Encoding a
/// self-describing `serde_json::Value` cannot fail.
#[verifier::external_body]
fn json_encode(value: &serde_json::Value) -> (r: Vec<u8>)
    ensures
        r@ == json_bytes_of(*value),
{
    serde_json::to_vec(value).unwrap_or_default()
}

/// Relies on prost::Message::encode_to_vec: returns the message's wire
/// encoding. Nothing is assumed of the bytes it returns.
#[verifier::external_body]
fn pb_encode<M: prost::Message>(message: &M) -> Vec<u8> {
    message.encode_to_vec()
}

/// The body of a mock request or response.
pub struct Body {
    chunks: Vec<Vec<u8>>,
}

/// The chunk sequence that a vector of chunks stands for.
pub open spec fn chunks_view(chunks: Seq<Vec<u8>>) -> Seq<Seq<u8>> {
    chunks.map_values(|c: Vec<u8>| c@)
}

impl View for Body {
    type V = Seq<Seq<u8>>;

    closed spec fn view(&self) -> Seq<Seq<u8>> {
        chunks_view(self.chunks@)
    }
}

impl Body {
    /// Creates an empty body.
    pub fn empty() -> (r: Self)
        ensures
            r@ =~= Seq::<Seq<u8>>::empty(),
    {
        Body { chunks: Vec::new() }
    }

    /// Creates a raw bytes body holding one chunk.
    pub fn bytes(data: Vec<u8>) -> (r: Self)
        ensures
            r@ =~= seq![data@],
    {
        let mut chunks: Vec<Vec<u8>> = Vec::new();
        chunks.push(data);
        Body { chunks }
    }

    /// Creates a streaming body with one chunk per item, in order.
    /// An empty input yields an empty body.
    pub fn bytes_stream(items: Vec<Vec<u8>>) -> (r: Self)
        ensures
            r@ =~= chunks_view(items@),
    {
        Body { chunks: items }
    }

    /// Creates a JSON body: a single chunk holding the serialized JSON
    /// bytes of `value`.
    pub fn json(value: &serde_json::Value) -> (r: Self)
        ensures
            r@ =~= seq![json_bytes_of(*value)],
    {
        Body::bytes(json_encode(value))
    }

    /// Creates a newline delimited JSON streaming body: one chunk per
    /// value, each chunk the serialized JSON bytes of that value followed
    /// by a single line feed, so a streaming consumer sees one record per
    /// frame.
    pub fn json_lines_stream(values: &Vec<serde_json::Value>) -> (r: Self)
        ensures
            r@.len() == values@.len(),
            forall|i: int|
                0 <= i < values@.len() ==> r@[i] == json_bytes_of(values@[i]).push(10u8),
    {
        let mut chunks: Vec<Vec<u8>> = Vec::new();
        let mut i: usize = 0;
        while i < values.len()
            invariant
                0 <= i <= values.len(),
                chunks@.len() == i,
                forall|k: int|
                    0 <= k < i ==> chunks@[k]@ == json_bytes_of(values@[k]).push(10u8),
            decreases values.len() - i,
        {
            let mut encoded = json_encode(&values[i]);
            encoded.push(10u8);
            chunks.push(encoded);
            i = i + 1;
        }
        Body { chunks }
    }

    /// Creates a protobuf body: a single chunk holding the wire encoding
    /// of `message`. The encoded bytes themselves are opaque here.
    pub fn pb<M: prost::Message>(message: &M) -> (r: Self)
        ensures
            r@.len() == 1,
    {
        Body::bytes(pb_encode(message))
    }

    /// Creates a protobuf streaming body: one chunk per message, in
    /// order, with no added delimiter. The encoded bytes themselves are
    /// opaque here.
    pub fn pb_stream<M: prost::Message>(messages: &Vec<M>) -> (r: Self)
        ensures
            r@.len() == messages@.len(),
    {
        let mut chunks: Vec<Vec<u8>> = Vec::new();
        let mut i: usize = 0;
        while i < messages.len()
            invariant
                0 <= i <= messages.len(),
                chunks@.len() == i,
            decreases messages.len() - i,
        {
            chunks.push(pb_encode(&messages[i]));
            i = i + 1;
        }
        Body { chunks }
    }

    /// Returns the byte length of the body: the sum of the remaining
    /// bytes across all chunks.
    pub fn len(&self) -> (r: usize)
        requires
            concat_of(self@).len() <= usize::MAX,
        ensures
            r == concat_of(self@).len(),
    {
        proof {
            lemma_concat_take_all(self@);
        }
        let mut total: usize = 0;
        let mut i: usize = 0;
        while i < self.chunks.len()
            invariant
                0 <= i <= self.chunks.len(),
                self@.len() == self.chunks.len(),
                total == concat_of(self@.take(i as int)).len(),
                concat_of(self@).len() <= usize::MAX,
            decreases self.chunks.len() - i,
        {
            proof {
                lemma_concat_take_succ(self@, i as int);
                lemma_concat_prefix_le(self@, i + 1);
            }
            total = total + self.chunks[i].len();
            i = i + 1;
        }
        total
    }

    /// Returns true iff no bytes remain in the body.
    pub fn is_empty(&self) -> (r: bool)
        ensures
            r == (concat_of(self@).len() == 0),
    {
        proof {
            lemma_concat_take_all(self@);
        }
        let mut i: usize = 0;
        while i < self.chunks.len()
            invariant
                0 <= i <= self.chunks.len(),
                self@.len() == self.chunks.len(),
                concat_of(self@.take(i as int)).len() == 0,
            decreases self.chunks.len() - i,
        {
            proof {
                lemma_concat_take_succ(self@, i as int);
            }
            if self.chunks[i].len() > 0 {
                proof {
                    lemma_concat_prefix_le(self@, i + 1);
                }
                return false;
            }
            i = i + 1;
        }
        true
    }

    /// Removes and returns the oldest remaining chunk, or `None` once the
    /// chunk queue is exhausted.
    pub fn next_chunk(&mut self) -> (r: Option<Vec<u8>>)
        ensures
            old(self)@.len() > 0 ==> {
                &&& r is Some
                &&& r.unwrap()@ == old(self)@[0]
                &&& final(self)@ =~= old(self)@.skip(1)
            },
            old(self)@.len() == 0 ==> r is None && final(self)@ =~= old(self)@,
    {
        if self.chunks.len() == 0 {
            None
        } else {
            let chunk = self.chunks.remove(0);
            Some(chunk)
        }
    }

    /// Collapses and returns all remaining bytes as one contiguous buffer,
    /// leaving the body empty. A second call returns an empty buffer.
    pub fn as_bytes(&mut self) -> (r: Vec<u8>)
        ensures
            r@ == concat_of(old(self)@),
            final(self)@ =~= Seq::<Seq<u8>>::empty(),
    {
        let out = concat_chunks(&self.chunks);
        self.chunks.clear();
        out
    }

    /// Returns a copy of the remaining chunks, in order, without
    /// consuming any of them.
    pub fn iter(&self) -> (r: Vec<Vec<u8>>)
        ensures
            chunks_view(r@) == self@,
    {
        clone_chunks(&self.chunks)
    }
}

impl Clone for Body {
    /// Deep copy: the clone holds the same chunks in the same order.
    fn clone(&self) -> (r: Self)
        ensures
            r@ == self@,
    {
        let chunks = clone_chunks(&self.chunks);
        proof {
            assert(chunks_view(chunks@) =~= chunks_view(self.chunks@));
        }
        Body { chunks }
    }
}

impl PartialEq for Body {
    /// Two bodies are equal iff their concatenated remaining bytes are
    /// byte-identical, regardless of how they were chunked. Neither
    /// operand is consumed.
    fn eq(&self, other: &Self) -> (r: bool) {
        let a = concat_chunks(&self.chunks);
        let b = concat_chunks(&other.chunks);
        let r = a == b;
        proof {
            if a@ =~= b@ {
                assert(a@ == b@);
            }
            if a@ == b@ {
                assert(a@ =~= b@);
            }
        }
        r
    }
}

impl Eq for Body {

}

impl vstd::std_specs::cmp::PartialEqSpecImpl for Body {
    open spec fn obeys_eq_spec() -> bool {
        true
    }

    open spec fn eq_spec(&self, other: &Body) -> bool {
        concat_of(self@) == concat_of(other@)
    }
}

/// Copies a byte vector element by element.
fn clone_bytes(data: &Vec<u8>) -> (r: Vec<u8>)
    ensures
        r@ == data@,
{
    let mut out: Vec<u8> = Vec::new();
    let mut i: usize = 0;
    while i < data.len()
        invariant
            0 <= i <= data.len(),
            out@ =~= data@.take(i as int),
        decreases data.len() - i,
    {
        out.push(data[i]);
        i = i + 1;
    }
    proof {
        assert(out@ =~= data@);
    }
    out
}

/// Copies a chunk sequence element by element.
fn clone_chunks(chunks: &Vec<Vec<u8>>) -> (r: Vec<Vec<u8>>)
    ensures
        chunks_view(r@) =~= chunks_view(chunks@),
{
    let mut out: Vec<Vec<u8>> = Vec::new();
    let mut i: usize = 0;
    while i < chunks.len()
        invariant
            0 <= i <= chunks.len(),
            out@.len() == i,
            chunks_view(out@) =~= chunks_view(chunks@).take(i as int),
        decreases chunks.len() - i,
    {
        let copy = clone_bytes(&chunks[i]);
        let ghost prev_out = out@;
        out.push(copy);
        proof {
            assert(out@ == prev_out.push(copy));
            assert forall|k: int| 0 <= k < out@.len() implies chunks_view(out@)[k]
                == chunks_view(chunks@).take(i + 1)[k] by {
                assert(chunks_view(chunks@).take(i + 1)[k] == chunks@[k]@);
                if k < i {
                    assert(out@[k] == prev_out[k]);
                    assert(chunks_view(out@)[k] == chunks_view(prev_out)[k]);
                    assert(chunks_view(prev_out)[k] == chunks_view(chunks@).take(i as int)[k]);
                    assert(chunks_view(chunks@).take(i as int)[k] == chunks@[k]@);
                } else {
                    assert(out@[k] == copy);
                    assert(chunks_view(out@)[k] == copy@);
                }
            }
        }
        i = i + 1;
    }
    out
}

/// Concatenates all chunks into one buffer without consuming them.
fn concat_chunks(chunks: &Vec<Vec<u8>>) -> (r: Vec<u8>)
    ensures
        r@ == concat_of(chunks_view(chunks@)),
{
    proof {
        lemma_concat_take_all(chunks_view(chunks@));
    }
    let mut out: Vec<u8> = Vec::new();
    let mut i: usize = 0;
    while i < chunks.len()
        invariant
            0 <= i <= chunks.len(),
            chunks_view(chunks@).len() == chunks.len(),
            out@ =~= concat_of(chunks_view(chunks@).take(i as int)),
        decreases chunks.len() - i,
    {
        let chunk = &chunks[i];
        let mut j: usize = 0;
        while j < chunk.len()
            invariant
                0 <= j <= chunk.len(),
                0 <= i < chunks.len(),
                chunks_view(chunks@).len() == chunks.len(),
                chunk == &chunks[i as int],
                out@ =~= concat_of(chunks_view(chunks@).take(i as int)) + chunk@.take(j as int),
            decreases chunk.len() - j,
        {
            out.push(chunk[j]);
            j = j + 1;
        }
        proof {
            lemma_concat_take_succ(chunks_view(chunks@), i as int);
            assert(chunk@.take(chunk@.len() as int) =~= chunks_view(chunks@)[i as int]);
        }
        i = i + 1;
    }
    proof {
        assert(out@ =~= concat_of(chunks_view(chunks@)));
    }
    out
}

/// Lexicographic comparison of two byte sequences.
pub open spec fn lex_cmp(a: Seq<u8>, b: Seq<u8>) -> core::cmp::Ordering
    decreases a.len(),
{
    if a.len() == 0 && b.len() == 0 {
        core::cmp::Ordering::Equal
    } else if a.len() == 0 {
        core::cmp::Ordering::Less
    } else if b.len() == 0 {
        core::cmp::Ordering::Greater
    } else if a[0] < b[0] {
        core::cmp::Ordering::Less
    } else if a[0] > b[0] {
        core::cmp::Ordering::Greater
    } else {
        lex_cmp(a.skip(1), b.skip(1))
    }
}

/// Compares two byte vectors lexicographically.
fn lex_cmp_bytes(a: &Vec<u8>, b: &Vec<u8>) -> (r: core::cmp::Ordering)
    ensures
        r == lex_cmp(a@, b@),
{
    proof {
        assert(a@.skip(0) =~= a@);
        assert(b@.skip(0) =~= b@);
    }
    let mut i: usize = 0;
    while i < a.len() && i < b.len()
        invariant
            0 <= i <= a.len(),
            0 <= i <= b.len(),
            lex_cmp(a@, b@) == lex_cmp(a@.skip(i as int), b@.skip(i as int)),
        decreases a.len() - i,
    {
        if a[i] < b[i] {
            return core::cmp::Ordering::Less;
        }
        if a[i] > b[i] {
            return core::cmp::Ordering::Greater;
        }
        proof {
            assert(a@.skip(i as int).skip(1) =~= a@.skip(i + 1));
            assert(b@.skip(i as int).skip(1) =~= b@.skip(i + 1));
        }
        i = i + 1;
    }
    proof {
        if a@.len() == b@.len() {
            assert(a@.skip(i as int).len() == 0);
            assert(b@.skip(i as int).len() == 0);
        }
    }
    if a.len() == b.len() {
        core::cmp::Ordering::Equal
    } else if a.len() < b.len() {
        core::cmp::Ordering::Less
    } else {
        core::cmp::Ordering::Greater
    }
}

impl PartialOrd for Body {
    /// Bodies order lexicographically over their concatenated remaining
    /// bytes, regardless of chunking. Neither operand is consumed.
    fn partial_cmp(&self, other: &Self) -> (r: Option<core::cmp::Ordering>) {
        let a = concat_chunks(&self.chunks);
        let b = concat_chunks(&other.chunks);
        Some(lex_cmp_bytes(&a, &b))
    }
}

impl vstd::std_specs::cmp::PartialOrdSpecImpl for Body {
    open spec fn obeys_partial_cmp_spec() -> bool {
        true
    }

    open spec fn partial_cmp_spec(&self, other: &Body) -> Option<core::cmp::Ordering> {
        Some(lex_cmp(concat_of(self@), concat_of(other@)))
    }
}

/// The total byte count of a sequence of chunks, summed chunk by chunk.
pub open spec fn sum_len(chunks: Seq<Seq<u8>>) -> nat
    decreases chunks.len(),
{
    if chunks.len() == 0 {
        0
    } else {
        chunks[0].len() + sum_len(chunks.skip(1))
    }
}

/// A single-chunk body's content is that chunk.
pub proof fn lemma_concat_single(chunk: Seq<u8>)
    ensures
        concat_of(seq![chunk]) == chunk,
{
    let s = seq![chunk];
    assert(s.len() == 1);
    assert(s.skip(1) =~= Seq::<Seq<u8>>::empty());
    assert(concat_of(s) == s[0] + concat_of(s.skip(1)));
    assert(concat_of(Seq::<Seq<u8>>::empty()) == Seq::<u8>::empty());
    assert(s[0] + Seq::<u8>::empty() =~= chunk);
}

/// Chunk-invariant equality: two bodies whose chunks concatenate to the
/// same bytes are equal, however differently those bytes were split into
/// chunks. Comparison takes the operands by shared reference, so neither
/// is consumed.
pub proof fn lemma_chunk_invariant_eq(b1: Body, b2: Body)
    requires
        concat_of(b1@) == concat_of(b2@),
    ensures
        b1.eq_spec(&b2),
{
}

/// Streaming completeness: the bytes of the chunks handed out one by one,
/// in order, total exactly the body's byte length.
pub proof fn lemma_stream_total(chunks: Seq<Seq<u8>>)
    ensures
        concat_of(chunks).len() == sum_len(chunks),
    decreases chunks.len(),
{
    if chunks.len() > 0 {
        lemma_stream_total(chunks.skip(1));
    }
}

/// Idempotent drain: a drained body has no chunks left, so its remaining
/// content is empty and a second drain returns no bytes.
pub proof fn lemma_drain_idempotent()
    ensures
        concat_of(Seq::<Seq<u8>>::empty()) =~= Seq::<u8>::empty(),
{
}

/// Taking every chunk is the same as taking the whole chunk sequence.
proof fn lemma_concat_take_all(chunks: Seq<Seq<u8>>)
    ensures
        concat_of(chunks.take(chunks.len() as int)) == concat_of(chunks),
{
    assert(chunks.take(chunks.len() as int) =~= chunks);
}

/// Extending a prefix of the chunk sequence by one chunk appends that
/// chunk's bytes to the concatenation of the prefix.
proof fn lemma_concat_take_succ(chunks: Seq<Seq<u8>>, i: int)
    requires
        0 <= i < chunks.len(),
    ensures
        concat_of(chunks.take(i + 1)) == concat_of(chunks.take(i)) + chunks[i],
    decreases i,
{
    if i == 0 {
        assert(chunks.take(1).skip(1) =~= Seq::<Seq<u8>>::empty());
        assert(chunks.take(1).len() == 1);
        assert(concat_of(chunks.take(1)) == chunks.take(1)[0] + concat_of(
            chunks.take(1).skip(1),
        ));
        assert(concat_of(Seq::<Seq<u8>>::empty()) == Seq::<u8>::empty());
        assert(chunks.take(1)[0] == chunks[0]);
        assert(concat_of(chunks.take(1)) =~= chunks[0]);
        assert(chunks.take(0).len() == 0);
        assert(concat_of(chunks.take(0)) =~= Seq::<u8>::empty());
        assert(concat_of(chunks.take(0)) + chunks[0] =~= chunks[0]);
    } else {
        let rest = chunks.skip(1);
        lemma_concat_take_succ(rest, i - 1);
        assert(chunks.take(i + 1).skip(1) =~= rest.take(i));
        assert(chunks.take(i).skip(1) =~= rest.take(i - 1));
        assert(concat_of(chunks.take(i + 1)) == chunks[0] + concat_of(rest.take(i)));
        assert(concat_of(chunks.take(i)) == chunks[0] + concat_of(rest.take(i - 1)));
        assert(concat_of(chunks.take(i + 1)) =~= concat_of(chunks.take(i)) + chunks[i]);
    }
}

/// The concatenation of a prefix is no longer than the whole concatenation.
proof fn lemma_concat_prefix_le(chunks: Seq<Seq<u8>>, i: int)
    requires
        0 <= i <= chunks.len(),
    ensures
        concat_of(chunks.take(i)).len() <= concat_of(chunks).len(),
    decreases chunks.len() - i,
{
    if i < chunks.len() {
        lemma_concat_take_succ(chunks, i);
        lemma_concat_prefix_le(chunks, i + 1);
    } else {
        lemma_concat_take_all(chunks);
    }
}


} // verus!
