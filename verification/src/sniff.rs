//! The capture-side logic: picking the interface and turning each raw frame
//! into registry appends.
//!
//! The blocking I/O around this — enumerating interfaces, opening the channel
//! and pulling frames — lives outside the library; what stands here is every
//! decision made on the bytes and names it hands over.

use vstd::prelude::*;
use crate::dns;
use crate::frame;
use crate::registry::DomainRegistry;

verus! {

/// Finds the interface with the wanted name: the index of the first name in
/// `names` equal to `target`, or nothing when no interface matches. A missing
/// interface is fatal to capture, so the caller must stop on `None`.
pub fn resolve_interface(names: &Vec<String>, target: &String) -> (r: Option<usize>)
    ensures
        match r {
            Some(i) => {
                &&& i < names@.len()
                &&& names.deep_view()[i as int] == target@
                &&& forall|j: int| 0 <= j < i ==> names.deep_view()[j] != target@
            },
            None => forall|j: int| 0 <= j < names@.len() ==> names.deep_view()[j] != target@,
        },
{
    let mut i: usize = 0;
    while i < names.len()
        invariant
            i <= names@.len(),
            forall|j: int| 0 <= j < i ==> names.deep_view()[j] != target@,
        decreases names@.len() - i,
    {
        if names[i].eq(target) {
            return Some(i);
        }
        i = i + 1;
    }
    None
}

/// The names one frame contributes to the registry: the question names of its
/// DNS payload, or none at all when the frame is not UDP/port-53 over IPv4.
pub open spec fn spec_frame_names(f: Seq<u8>) -> Seq<Seq<char>> {
    match frame::spec_decode(f) {
        Some(p) => dns::spec_extract(p),
        None => Seq::<Seq<char>>::empty(),
    }
}

/// End to end: a frame that decodes to a DNS payload laid out as a 12-byte
/// header (whose count field claims at least the questions encoded) followed
/// by an encoded question section contributes exactly those questions'
/// names, in wire order.
pub proof fn lemma_frame_names_encoded(f: Seq<u8>, header: Seq<u8>, qs: Seq<Seq<Seq<u8>>>)
    requires
        frame::spec_decode(f) == Some(header + dns::encode_questions(qs)),
        header.len() == 12,
        forall|i: int| 0 <= i < qs.len() ==> dns::wf_question(#[trigger] qs[i]),
        header[4] * 256 + header[5] >= qs.len(),
    ensures
        spec_frame_names(f) == dns::question_names(qs),
{
    dns::lemma_extract_encoded(header, qs);
}

/// A frame the decoder discards — wrong ether-type, wrong protocol, wrong
/// port, or too short for a header it claims — contributes no name at all:
/// observing it leaves the registry exactly as it was.
pub proof fn lemma_discarded_frame_appends_nothing(r: Seq<Seq<char>>, f: Seq<u8>)
    requires
        frame::spec_decode(f) is None,
    ensures
        r + spec_frame_names(f) == r,
{
    assert(r + spec_frame_names(f) =~= r);
}

/// Decodes one frame and extracts its question names, in wire order.
pub fn process_frame(raw: &[u8]) -> (names: Vec<String>)
    ensures
        names.deep_view() == spec_frame_names(raw@),
{
    match frame::decode(raw) {
        Some(payload) => dns::extract(payload),
        None => {
            let names: Vec<String> = Vec::new();
            proof {
                assert(names.deep_view() =~= Seq::<Seq<char>>::empty());
            }
            names
        },
    }
}

/// One pass of the capture loop's pure part: appends every question name of
/// one frame to the registry, keeping wire order. A frame that the decoder
/// discards, or whose payload holds no decodable question, leaves the
/// registry exactly as it was.
pub fn observe_frame(registry: &mut DomainRegistry, raw: &[u8])
    ensures
        final(registry)@ == old(registry)@ + spec_frame_names(raw@),
{
    let names = process_frame(raw);
    let ghost all = names.deep_view();
    let ghost base = registry@;
    let mut k: usize = 0;
    while k < names.len()
        invariant
            k <= names@.len(),
            all == names.deep_view(),
            registry@ == base + all.take(k as int),
        decreases names@.len() - k,
    {
        proof {
            assert(base + all.take(k as int) + seq![all[k as int]] =~= base + all.take(
                k as int + 1,
            ));
        }
        registry.append(names[k].clone());
        proof {
            assert((base + all.take(k as int)).push(names@[k as int]@) =~= base + all.take(
                k as int,
            ) + seq![all[k as int]]);
        }
        k = k + 1;
    }
    proof {
        assert(base + all.take(names@.len() as int) =~= base + all);
    }
}

} // verus!
