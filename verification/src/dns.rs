//! The DNS question extractor.
//!
//! A UDP payload addressed to port 53 is read as a DNS message: the question
//! count is a two-byte big-endian field at offset 4, and the question section
//! starts at offset 12, right after the fixed header. Each question's name is
//! a run of length-prefixed labels ended by a zero length byte; the labels
//! are decoded as UTF-8 (with a placeholder for a label that is not valid
//! UTF-8) and joined with `.`. Every read is bounds-checked: a truncated or
//! lying payload ends extraction early with the names decoded so far, and
//! never with a crash.

use vstd::prelude::*;
use vstd::string::StringExecFns;
use vstd::utf8::decode_utf8;
use vstd::utf8::valid_utf8;

verus! {

/// The text of one label: its bytes decoded as UTF-8, or a placeholder when
/// they are not valid UTF-8.
pub open spec fn label_text(bytes: Seq<u8>) -> Seq<char> {
    if valid_utf8(bytes) {
        decode_utf8(bytes)
    } else {
        "<invalid>"@
    }
}

/// Walks one question's labels starting at `c`, which must point at a length
/// byte. Yields the label texts in order and the cursor just past the
/// terminating zero byte, or nothing if the walk would leave the payload.
pub open spec fn parse_question(p: Seq<u8>, c: int) -> Option<(Seq<Seq<char>>, int)>
    decreases p.len() - c,
{
    if c < 0 || c >= p.len() {
        None
    } else {
        let len = p[c] as int;
        if len == 0 {
            Some((Seq::<Seq<char>>::empty(), c + 1))
        } else if c + 1 + len <= p.len() {
            match parse_question(p, c + 1 + len) {
                Some(rest) => Some(
                    (seq![label_text(p.subrange(c + 1, c + 1 + len))] + rest.0, rest.1),
                ),
                None => None,
            }
        } else {
            None
        }
    }
}

/// Label texts joined with `.`: the shape of a finished domain name.
pub open spec fn join_labels(labels: Seq<Seq<char>>) -> Seq<char>
    decreases labels.len(),
{
    if labels.len() == 0 {
        Seq::<char>::empty()
    } else if labels.len() == 1 {
        labels[0]
    } else {
        labels[0] + seq!['.'] + join_labels(labels.drop_first())
    }
}

/// The names of up to `n` questions starting at `c`: parsing stops at the
/// first question that cannot be read in full, keeping what came before.
pub open spec fn parse_questions(p: Seq<u8>, c: int, n: nat) -> Seq<Seq<char>>
    decreases n,
{
    if n == 0 {
        Seq::<Seq<char>>::empty()
    } else {
        match parse_question(p, c) {
            Some(q) => seq![join_labels(q.0)] + parse_questions(p, q.1, (n - 1) as nat),
            None => Seq::<Seq<char>>::empty(),
        }
    }
}

/// The question count claimed by the header: a big-endian field at offsets 4
/// and 5.
pub open spec fn qdcount_of(p: Seq<u8>) -> nat {
    (p[4] * 256 + p[5]) as nat
}

/// Everything `extract` returns for a payload: no names when the payload
/// cannot even hold the question count, otherwise the names of its questions,
/// walked from offset 12 and cut short wherever the payload runs out.
pub open spec fn spec_extract(p: Seq<u8>) -> Seq<Seq<char>> {
    if p.len() < 6 {
        Seq::<Seq<char>>::empty()
    } else {
        parse_questions(p, 12, qdcount_of(p))
    }
}

/// Relies on `core::str::from_utf8`: it returns `Ok` exactly when the bytes
/// are valid UTF-8, and the `str` it returns then is those bytes decoded.
#[verifier::external_body]
fn utf8_str(bytes: &[u8]) -> (r: Option<&str>)
    ensures
        r is Some <==> valid_utf8(bytes@),
        r matches Some(s) ==> s@ == decode_utf8(bytes@),
{
    core::str::from_utf8(bytes).ok()
}

/// The owned text of one label, placeholder included.
pub fn label_string(bytes: &[u8]) -> (r: String)
    ensures
        r@ == label_text(bytes@),
{
    match utf8_str(bytes) {
        Some(s) => s.to_owned(),
        None => String::from_str("<invalid>"),
    }
}

/// Appending a label to an already joined run of labels appends a `.` first,
/// unless the run was empty.
proof fn lemma_join_push(labels: Seq<Seq<char>>, l: Seq<char>)
    ensures
        join_labels(labels.push(l)) == if labels.len() == 0 {
            l
        } else {
            join_labels(labels) + seq!['.'] + l
        },
    decreases labels.len(),
{
    if labels.len() == 0 {
        assert(labels.push(l) =~= seq![l]);
        assert(join_labels(seq![l]) == seq![l][0]);
    } else if labels.len() == 1 {
        assert(labels.push(l).drop_first() =~= seq![l]);
        assert(join_labels(seq![l]) == seq![l][0]);
        assert(labels.push(l)[0] == labels[0]);
    } else {
        lemma_join_push(labels.drop_first(), l);
        assert(labels.push(l).drop_first() =~= labels.drop_first().push(l));
        assert(labels.push(l)[0] == labels[0]);
        assert(labels[0] + seq!['.'] + (join_labels(labels.drop_first()) + seq!['.'] + l) =~= (
        labels[0] + seq!['.'] + join_labels(labels.drop_first())) + seq!['.'] + l);
    }
}

/// Reads one question whose first length byte sits at `start`. Returns the
/// joined name and the cursor just past the question, exactly when the
/// question fits inside the payload.
pub fn read_question(payload: &[u8], start: usize) -> (r: Option<(String, usize)>)
    ensures
        match parse_question(payload@, start as int) {
            Some(q) => r matches Some(ne) && ne.0@ == join_labels(q.0) && ne.1 as int == q.1,
            None => r is None,
        },
{
    if start >= payload.len() {
        return None;
    }
    let mut name = String::new();
    let ghost mut labels: Seq<Seq<char>> = Seq::<Seq<char>>::empty();
    let mut first: bool = true;
    let mut c: usize = start;
    proof {
        match parse_question(payload@, start as int) {
            Some(q) => {
                assert(Seq::<Seq<char>>::empty() + q.0 =~= q.0);
            },
            None => {},
        }
    }
    loop
        invariant
            c <= payload@.len(),
            name@ == join_labels(labels),
            first <==> labels.len() == 0,
            match parse_question(payload@, c as int) {
                Some(q) => parse_question(payload@, start as int) matches Some(w) && w.0 == labels
                    + q.0 && w.1 == q.1,
                None => parse_question(payload@, start as int) is None,
            },
        decreases payload@.len() - c,
    {
        if c >= payload.len() {
            return None;
        }
        let len: usize = payload[c] as usize;
        if len == 0 {
            proof {
                assert(labels + Seq::<Seq<char>>::empty() =~= labels);
            }
            return Some((name, c + 1));
        }
        if len > payload.len() - (c + 1) {
            return None;
        }
        let label_bytes: &[u8] = &payload[c + 1..c + 1 + len];
        let text = label_string(label_bytes);
        proof {
            lemma_join_push(labels, text@);
        }
        if first {
            first = false;
        } else {
            name.append(".");
        }
        name.append(text.as_str());
        proof {
            reveal_strlit(".");
            assert("."@ =~= seq!['.']);
            let ghost t = label_text(payload@.subrange(c as int + 1, c as int + 1 + len as int));
            if labels.len() == 0 {
                assert(Seq::<char>::empty() + t =~= t);
            }
            match parse_question(payload@, c as int + 1 + len as int) {
                Some(rest) => {
                    assert(parse_question(payload@, c as int) == Some(
                        (seq![t] + rest.0, rest.1),
                    ));
                    assert(labels + (seq![t] + rest.0) =~= labels.push(t) + rest.0);
                },
                None => {
                    assert(parse_question(payload@, c as int) is None);
                },
            }
            labels = labels.push(t);
        }
        c = c + 1 + len;
    }
}

/// Walks the question section of a DNS payload and returns every fully
/// decodable question name, in wire order. Never reads outside the payload
/// and never panics, whatever the bytes claim.
pub fn extract(payload: &[u8]) -> (names: Vec<String>)
    ensures
        names.deep_view() == spec_extract(payload@),
{
    let mut names: Vec<String> = Vec::new();
    if payload.len() < 6 {
        proof {
            assert(names.deep_view() =~= spec_extract(payload@));
        }
        return names;
    }
    let qdcount: usize = (payload[4] as usize) * 256 + (payload[5] as usize);
    let mut cursor: usize = 12;
    let mut i: usize = 0;
    proof {
        assert(names.deep_view() + parse_questions(payload@, 12, qdcount_of(payload@))
            =~= parse_questions(payload@, 12, qdcount_of(payload@)));
    }
    while i < qdcount
        invariant
            i <= qdcount,
            payload@.len() >= 6,
            qdcount == qdcount_of(payload@),
            spec_extract(payload@) == names.deep_view() + parse_questions(
                payload@,
                cursor as int,
                (qdcount - i) as nat,
            ),
        decreases qdcount - i,
    {
        let ghost before = names.deep_view();
        let ghost n_rem = (qdcount - i) as nat;
        match read_question(payload, cursor) {
            None => {
                proof {
                    assert(parse_questions(payload@, cursor as int, n_rem)
                        =~= Seq::<Seq<char>>::empty());
                    assert(before + Seq::<Seq<char>>::empty() =~= before);
                }
                return names;
            },
            Some((name, end)) => {
                proof {
                    match parse_question(payload@, cursor as int) {
                        Some(q) => {
                            assert(parse_questions(payload@, cursor as int, n_rem) == seq![
                                join_labels(q.0),
                            ] + parse_questions(payload@, q.1, (n_rem - 1) as nat));
                            assert(before + (seq![name@] + parse_questions(
                                payload@,
                                end as int,
                                (n_rem - 1) as nat,
                            )) =~= before.push(name@) + parse_questions(
                                payload@,
                                end as int,
                                (n_rem - 1) as nat,
                            ));
                        },
                        None => {
                            assert(false);
                        },
                    }
                }
                names.push(name);
                proof {
                    assert(names.deep_view() =~= before.push(name@));
                }
                cursor = end;
                i = i + 1;
            },
        }
    }
    proof {
        assert(names.deep_view() + parse_questions(payload@, cursor as int, 0)
            =~= names.deep_view());
    }
    names
}

/// A payload shorter than the six bytes needed to reach the question count
/// yields no names at all.
pub proof fn lemma_short_payload_extracts_nothing(p: Seq<u8>)
    requires
        p.len() < 6,
    ensures
        spec_extract(p) == Seq::<Seq<char>>::empty(),
{
}

/// A label that can stand on the wire: at least one byte, and few enough
/// bytes to fit its length prefix.
pub open spec fn wf_label(l: Seq<u8>) -> bool {
    1 <= l.len() <= 255
}

/// A question whose labels can all stand on the wire. Nothing is asked of
/// the labels' bytes themselves: a label need not be valid UTF-8.
pub open spec fn wf_question(q: Seq<Seq<u8>>) -> bool {
    forall|i: int| 0 <= i < q.len() ==> wf_label(#[trigger] q[i])
}

/// The wire form of one question's labels: each prefixed with its length
/// byte, then the terminating zero byte.
pub open spec fn encode_labels(q: Seq<Seq<u8>>) -> Seq<u8>
    decreases q.len(),
{
    if q.len() == 0 {
        seq![0u8]
    } else {
        seq![q[0].len() as u8] + q[0] + encode_labels(q.drop_first())
    }
}

/// The wire form of a whole question section.
pub open spec fn encode_questions(qs: Seq<Seq<Seq<u8>>>) -> Seq<u8>
    decreases qs.len(),
{
    if qs.len() == 0 {
        Seq::<u8>::empty()
    } else {
        encode_labels(qs[0]) + encode_questions(qs.drop_first())
    }
}

/// The texts of a question's labels, in order.
pub open spec fn label_texts(q: Seq<Seq<u8>>) -> Seq<Seq<char>> {
    q.map_values(|l: Seq<u8>| label_text(l))
}

/// The name a question decodes to: its label texts joined with `.`.
pub open spec fn question_name(q: Seq<Seq<u8>>) -> Seq<char> {
    join_labels(label_texts(q))
}

/// The names of a whole question section, in order.
pub open spec fn question_names(qs: Seq<Seq<Seq<u8>>>) -> Seq<Seq<char>> {
    qs.map_values(|q: Seq<Seq<u8>>| question_name(q))
}

/// An encoding is never empty: even a question of no labels is its zero byte.
proof fn lemma_encode_labels_len(q: Seq<Seq<u8>>)
    ensures
        encode_labels(q).len() >= 1,
    decreases q.len(),
{
    if q.len() != 0 {
        lemma_encode_labels_len(q.drop_first());
    }
}

/// Walking an encoded question from its first length byte finds exactly its
/// label texts and stops right after its terminating zero byte.
proof fn lemma_parse_encoded_question(p: Seq<u8>, c: int, q: Seq<Seq<u8>>)
    requires
        wf_question(q),
        0 <= c,
        c + encode_labels(q).len() <= p.len(),
        p.subrange(c, c + encode_labels(q).len()) == encode_labels(q),
    ensures
        parse_question(p, c) == Some((label_texts(q), c + encode_labels(q).len())),
    decreases q.len(),
{
    let e = encode_labels(q);
    assert(forall|i: int| 0 <= i < e.len() ==> p[c + i] == #[trigger] e[i]) by {
        assert(forall|i: int|
            0 <= i < e.len() ==> p.subrange(c, c + e.len() as int)[i] == #[trigger] e[i]);
    }
    if q.len() == 0 {
        assert(e[0] == 0u8);
        assert(p[c + 0] == e[0]);
        assert(p[c] == 0);
        assert(label_texts(q) =~= Seq::<Seq<char>>::empty());
    } else {
        let l0 = q[0];
        let n0 = l0.len() as int;
        assert(wf_label(l0));
        let rest_enc = encode_labels(q.drop_first());
        lemma_encode_labels_len(q.drop_first());
        assert(e == seq![l0.len() as u8] + l0 + rest_enc);
        assert(e[0] == l0.len() as u8);
        assert(p[c] == l0.len() as u8);
        assert(p[c] as int == n0);
        assert(forall|i: int| 0 <= i < n0 ==> e[1 + i] == #[trigger] l0[i]);
        assert(p.subrange(c + 1, c + 1 + n0) =~= l0);
        assert(forall|i: int| 0 <= i < rest_enc.len() ==> e[1 + n0 + i] == #[trigger] rest_enc[i]);
        assert(p.subrange(c + 1 + n0, c + 1 + n0 + rest_enc.len() as int) =~= rest_enc);
        assert(wf_question(q.drop_first())) by {
            assert(forall|i: int|
                0 <= i < q.drop_first().len() ==> #[trigger] q.drop_first()[i] == q[i + 1]);
        }
        lemma_parse_encoded_question(p, c + 1 + n0, q.drop_first());
        assert(label_texts(q) =~= seq![label_text(l0)] + label_texts(q.drop_first()));
        assert(c + 1 + n0 + rest_enc.len() == c + e.len());
    }
}

/// Walking an encoded question section that fills the payload to its very
/// end finds exactly its questions' names, as long as the claimed count is
/// at least the number of questions encoded: a count that claims more runs
/// into the payload's end and stops there.
proof fn lemma_parse_encoded_questions(p: Seq<u8>, c: int, qs: Seq<Seq<Seq<u8>>>, n: nat)
    requires
        forall|i: int| 0 <= i < qs.len() ==> wf_question(#[trigger] qs[i]),
        0 <= c,
        c + encode_questions(qs).len() == p.len(),
        p.subrange(c, p.len() as int) == encode_questions(qs),
        n >= qs.len(),
    ensures
        parse_questions(p, c, n) == question_names(qs),
    decreases qs.len(),
{
    let e = encode_questions(qs);
    assert(forall|i: int| 0 <= i < e.len() ==> p[c + i] == #[trigger] e[i]) by {
        assert(forall|i: int|
            0 <= i < e.len() ==> p.subrange(c, p.len() as int)[i] == #[trigger] e[i]);
    }
    if qs.len() == 0 {
        assert(question_names(qs) =~= Seq::<Seq<char>>::empty());
        if n > 0 {
            assert(parse_question(p, c) is None);
        }
    } else {
        let q0 = qs[0];
        let e0 = encode_labels(q0);
        let rest_enc = encode_questions(qs.drop_first());
        assert(e == e0 + rest_enc);
        assert(forall|i: int| 0 <= i < e0.len() ==> e[i] == #[trigger] e0[i]);
        assert(p.subrange(c, c + e0.len() as int) =~= e0);
        lemma_parse_encoded_question(p, c, q0);
        assert(forall|i: int| 0 <= i < rest_enc.len() ==> e[e0.len() + i] == #[trigger] rest_enc[i]);
        assert(p.subrange(c + e0.len() as int, p.len() as int) =~= rest_enc);
        assert(forall|i: int|
            0 <= i < qs.drop_first().len() ==> wf_question(#[trigger] qs.drop_first()[i])) by {
            assert(forall|i: int|
                0 <= i < qs.drop_first().len() ==> #[trigger] qs.drop_first()[i] == qs[i + 1]);
        }
        lemma_parse_encoded_questions(p, c + e0.len() as int, qs.drop_first(), (n - 1) as nat);
        assert(question_names(qs) =~= seq![question_name(q0)] + question_names(qs.drop_first()));
    }
}

/// Extraction inverts encoding. Take any questions whose labels fit their
/// length bytes, lay them out after a 12-byte header whose count field
/// (bytes 4 and 5, big-endian) claims at least that many questions: then
/// extraction yields exactly those questions' names, in wire order, each its
/// label texts joined with `.` — a label that is not valid UTF-8 shows as
/// the placeholder, without losing the rest of its name. With a count equal
/// to the number encoded this is the round trip; with a larger, lying count
/// extraction still stops cleanly at the payload's end with exactly the
/// names that were encodable.
pub proof fn lemma_extract_encoded(header: Seq<u8>, qs: Seq<Seq<Seq<u8>>>)
    requires
        header.len() == 12,
        forall|i: int| 0 <= i < qs.len() ==> wf_question(#[trigger] qs[i]),
        header[4] * 256 + header[5] >= qs.len(),
    ensures
        spec_extract(header + encode_questions(qs)) == question_names(qs),
{
    let p = header + encode_questions(qs);
    assert(p[4] == header[4]);
    assert(p[5] == header[5]);
    assert(p.subrange(12, p.len() as int) =~= encode_questions(qs));
    lemma_parse_encoded_questions(p, 12, qs, qdcount_of(p));
}

} // verus!
