//! From configuration to contexts, and from a toggle set to the response
//! that a client receives, negotiated against the hash the client holds.

use crate::engine::{string_writes, write_str, Context, Contexts, Feature, Toggles, Treatment};
use crate::user_model::{
    ContextConfig, ContextsConfig, FeatureConfig, ResponseStatus, SegmentConfig, TogglesResponse,
    TreatmentConfig,
};
use std::collections::hash_map::DefaultHasher;
use std::hash::Hasher;
use vstd::bytes::{spec_u64_to_le_bytes, u64_to_le_bytes};
use vstd::prelude::*;
use vstd::std_specs::hash::DefaultHasherAdditionalSpecFns;

verus! {

/// The (name, value) texts of response pairs.
pub open spec fn pair_texts(pairs: Seq<(String, String)>) -> Seq<(Seq<char>, Seq<char>)> {
    pairs.map_values(|p: (String, String)| (p.0@, p.1@))
}

/// The text of the hash a client sent, if any.
pub open spec fn client_text(hash: Option<&str>) -> Option<Seq<char>> {
    match hash {
        Some(h) => Some(h@),
        None => None,
    }
}

/// `r` is the response for a client holding `client_hash`, given the
/// server's hash of the toggle set and the toggle pairs. A matching client
/// hash wins; an unmatched client hash on an empty set means the context is
/// unknown; otherwise hash and toggles are handed out.
pub open spec fn negotiated(
    client_hash: Option<Seq<char>>,
    server_hash: Seq<char>,
    pairs: Seq<(Seq<char>, Seq<char>)>,
    r: TogglesResponse,
) -> bool {
    if client_hash == Some(server_hash) {
        &&& r.status == ResponseStatus::CacheOk
        &&& r.hash is None
        &&& r.toggles is None
    } else if client_hash is Some && pairs.len() == 0 {
        &&& r.status == ResponseStatus::NotFound
        &&& r.hash is None
        &&& r.toggles is None
    } else {
        &&& r.status == ResponseStatus::Okay
        &&& r.hash matches Some(h) && h@ == server_hash
        &&& r.toggles matches Some(ts) && pair_texts(ts@) == pairs
    }
}

/// Classifies a request given the server's hash of `toggles`: `CacheOk` when
/// the client holds that hash, `NotFound` when the client sent another hash
/// and there are no toggles, else `Okay` with the hash and the toggles.
pub fn negotiate(
    opt_input_hash: Option<&str>,
    server_hash: String,
    toggles: &Toggles,
) -> (r: TogglesResponse)
    ensures
        negotiated(client_text(opt_input_hash), server_hash@, toggles@, r),
{
    let client_is_current = match opt_input_hash {
        Some(input_hash) => input_hash.to_owned() == server_hash,
        None => false,
    };
    if client_is_current {
        TogglesResponse { hash: None, status: ResponseStatus::CacheOk, toggles: None }
    } else if opt_input_hash.is_some() && toggles.toggles.len() == 0 {
        TogglesResponse { hash: None, status: ResponseStatus::NotFound, toggles: None }
    } else {
        let mut pairs: Vec<(String, String)> = Vec::new();
        for i in 0..toggles.toggles.len()
            invariant
                pairs@.len() == i,
                forall|k: int|
                    0 <= k < i ==> (#[trigger] pairs@[k]).0@ == toggles.toggles@[k].name@
                        && pairs@[k].1@ == toggles.toggles@[k].value@,
        {
            let toggle = &toggles.toggles[i];
            pairs.push((toggle.name.clone(), toggle.value.clone()));
        }
        assert(pair_texts(pairs@) =~= toggles@);
        TogglesResponse {
            hash: Some(server_hash),
            status: ResponseStatus::Okay,
            toggles: Some(pairs),
        }
    }
}

/// The texts of `strings`.
pub open spec fn texts(strings: Seq<String>) -> Seq<Seq<char>> {
    strings.map_values(|s: String| s@)
}

/// `t` carries what the configured treatment `c` says.
pub open spec fn treatment_from(t: Treatment, c: TreatmentConfig) -> bool {
    &&& t.probability == c.probability
    &&& texts(t.segments@) == texts(c.segments@)
    &&& t.value@ == c.value@
}

/// `f` carries what the configured feature `c` says, treatments in order.
pub open spec fn feature_from(f: Feature, c: FeatureConfig) -> bool {
    &&& f.name@ == c.name@
    &&& f.treatments@.len() == c.treatments@.len()
    &&& forall|i: int|
        0 <= i < f.treatments@.len() ==> treatment_from(
            #[trigger] f.treatments@[i],
            c.treatments@[i],
        )
}

/// The segment entry `s` carries what the configured segment `c` says.
pub open spec fn segment_from(s: (String, Vec<String>), c: SegmentConfig) -> bool {
    s.0@ == c.name@ && texts(s.1@) == texts(c.user_identifiers@)
}

/// `ctx` carries what the configured context `c` says: its features and its
/// segments, in configuration order.
pub open spec fn context_from(ctx: Context, c: ContextConfig) -> bool {
    &&& ctx.features@.len() == c.features@.len()
    &&& forall|i: int|
        0 <= i < ctx.features@.len() ==> feature_from(#[trigger] ctx.features@[i], c.features@[i])
    &&& ctx.segments@.len() == c.segments@.len()
    &&& forall|i: int|
        0 <= i < ctx.segments@.len() ==> segment_from(#[trigger] ctx.segments@[i], c.segments@[i])
}

fn copy_strings(strings: &Vec<String>) -> (r: Vec<String>)
    ensures
        texts(r@) == texts(strings@),
{
    let mut copy: Vec<String> = Vec::new();
    for i in 0..strings.len()
        invariant
            copy@.len() == i,
            forall|k: int| 0 <= k < i ==> (#[trigger] copy@[k])@ == strings@[k]@,
    {
        copy.push(strings[i].clone());
    }
    assert(texts(copy@) =~= texts(strings@));
    copy
}

fn map_treatment_config(treatment: &TreatmentConfig) -> (r: Treatment)
    ensures
        treatment_from(r, *treatment),
{
    Treatment {
        probability: treatment.probability,
        segments: copy_strings(&treatment.segments),
        value: treatment.value.clone(),
    }
}

fn map_feature_config(feature: &FeatureConfig) -> (r: Feature)
    ensures
        feature_from(r, *feature),
{
    let mut treatments: Vec<Treatment> = Vec::new();
    for i in 0..feature.treatments.len()
        invariant
            treatments@.len() == i,
            forall|k: int|
                0 <= k < i ==> treatment_from(#[trigger] treatments@[k], feature.treatments@[k]),
    {
        treatments.push(map_treatment_config(&feature.treatments[i]));
    }
    Feature { name: feature.name.clone(), treatments }
}

/// The features of the configured context, in configuration order.
pub fn map_feature_configs_to_features(context: &ContextConfig) -> (r: Vec<Feature>)
    ensures
        r@.len() == context.features@.len(),
        forall|i: int| 0 <= i < r@.len() ==> feature_from(#[trigger] r@[i], context.features@[i]),
{
    let mut features: Vec<Feature> = Vec::new();
    for i in 0..context.features.len()
        invariant
            features@.len() == i,
            forall|k: int|
                0 <= k < i ==> feature_from(#[trigger] features@[k], context.features@[k]),
    {
        features.push(map_feature_config(&context.features[i]));
    }
    features
}

/// The segments of the configured context by name, in configuration order.
pub fn map_segment_configs_to_segments(context: &ContextConfig) -> (r: Vec<(String, Vec<String>)>)
    ensures
        r@.len() == context.segments@.len(),
        forall|i: int| 0 <= i < r@.len() ==> segment_from(#[trigger] r@[i], context.segments@[i]),
{
    let mut segments: Vec<(String, Vec<String>)> = Vec::new();
    for i in 0..context.segments.len()
        invariant
            segments@.len() == i,
            forall|k: int|
                0 <= k < i ==> segment_from(#[trigger] segments@[k], context.segments@[k]),
    {
        let segment: &SegmentConfig = &context.segments[i];
        segments.push((segment.name.clone(), copy_strings(&segment.user_identifiers)));
    }
    segments
}

/// The context that the configured context describes.
pub fn map_context_config_to_context(context: &ContextConfig) -> (r: Context)
    ensures
        context_from(r, *context),
{
    Context {
        features: map_feature_configs_to_features(context),
        segments: map_segment_configs_to_segments(context),
    }
}

/// The contexts of the configuration by name, in configuration order; a
/// later context shadows an earlier one with the same name.
pub fn map_contexts_config_to_contexts(contexts: &ContextsConfig) -> (r: Contexts)
    ensures
        r.contexts@.len() == contexts.contexts@.len(),
        forall|i: int|
            0 <= i < r.contexts@.len() ==> (#[trigger] r.contexts@[i]).0@
                == contexts.contexts@[i].name@ && context_from(
                r.contexts@[i].1,
                contexts.contexts@[i],
            ),
{
    let mut mapped: Vec<(String, Context)> = Vec::new();
    for i in 0..contexts.contexts.len()
        invariant
            mapped@.len() == i,
            forall|k: int|
                0 <= k < i ==> (#[trigger] mapped@[k]).0@ == contexts.contexts@[k].name@
                    && context_from(mapped@[k].1, contexts.contexts@[k]),
    {
        let context: &ContextConfig = &contexts.contexts[i];
        mapped.push((context.name.clone(), map_context_config_to_context(context)));
    }
    Contexts { contexts: mapped }
}

/// What hashing toggle pairs feeds a hasher after the count: each name,
/// then its value, as strings.
pub open spec fn pair_writes(pairs: Seq<(Seq<char>, Seq<char>)>) -> Seq<Seq<u8>>
    decreases pairs.len(),
{
    if pairs.len() == 0 {
        Seq::empty()
    } else {
        pair_writes(pairs.drop_last()) + string_writes(pairs.last().0) + string_writes(
            pairs.last().1,
        )
    }
}

/// What hashing toggle pairs feeds a hasher: the number of pairs as eight
/// little-endian bytes, then the pairs in order.
pub open spec fn toggles_writes(pairs: Seq<(Seq<char>, Seq<char>)>) -> Seq<Seq<u8>> {
    seq![spec_u64_to_le_bytes(pairs.len() as u64)] + pair_writes(pairs)
}

/// The 64-bit content digest of toggle pairs.
pub open spec fn toggles_digest(pairs: Seq<(Seq<char>, Seq<char>)>) -> u64 {
    DefaultHasher::spec_finish(toggles_writes(pairs))
}

/// The base64 text of `bytes`.
pub uninterp spec fn base64_of(bytes: Seq<u8>) -> Seq<char>;

/// The hash a client holds for toggle pairs: the base64 text of the
/// digest's eight little-endian bytes.
pub open spec fn toggles_hash_text(pairs: Seq<(Seq<char>, Seq<char>)>) -> Seq<char> {
    base64_of(spec_u64_to_le_bytes(toggles_digest(pairs)))
}

/// Relies on base64's `encode`: the standard alphabet with padding, a text
/// that depends on the bytes alone, four characters for each started group
/// of three bytes (`encoded_size`). It panics only when the encoded length
/// overflows `usize`.
#[verifier::external_body]
fn encode_base64(bytes: &[u8]) -> (r: String)
    requires
        bytes@.len() <= usize::MAX / 2,
    ensures
        r@ == base64_of(bytes@),
        r@.len() == 4 * ((bytes@.len() + 2) / 3),
{
    base64::encode(bytes)
}

/// The content digest of the toggles: a function of the ordered
/// (name, value) pairs alone.
pub fn calculate_hash(toggles: &Toggles) -> (r: u64)
    ensures
        r == toggles_digest(toggles@),
{
    let ghost pairs = toggles@;
    let mut hasher = DefaultHasher::new();
    let count = u64_to_le_bytes(toggles.toggles.len() as u64);
    hasher.write(count.as_slice());
    assert(pair_writes(pairs.subrange(0, 0)) =~= Seq::empty());
    assert(hasher@ =~= seq![spec_u64_to_le_bytes(pairs.len() as u64)] + pair_writes(
        pairs.subrange(0, 0),
    ));
    for i in 0..toggles.toggles.len()
        invariant
            pairs == toggles@,
            hasher@ == seq![spec_u64_to_le_bytes(pairs.len() as u64)] + pair_writes(
                pairs.subrange(0, i as int),
            ),
    {
        let toggle = &toggles.toggles[i];
        write_str(&mut hasher, toggle.name.as_str());
        write_str(&mut hasher, toggle.value.as_str());
        proof {
            let done = pairs.subrange(0, i + 1);
            assert(done.drop_last() =~= pairs.subrange(0, i as int));
            assert(done.last() == pairs[i as int]);
            assert(hasher@ =~= seq![spec_u64_to_le_bytes(pairs.len() as u64)] + pair_writes(done));
        }
    }
    assert(pairs.subrange(0, pairs.len() as int) =~= pairs);
    hasher.finish()
}

/// The hash that identifies the toggles' content to clients.
pub fn encoded_hash(toggles: &Toggles) -> (r: String)
    ensures
        r@ == toggles_hash_text(toggles@),
{
    let digest = calculate_hash(toggles);
    let bytes = u64_to_le_bytes(digest);
    encode_base64(bytes.as_slice())
}

/// The response for a client that holds `opt_input_hash`, for `toggles`.
pub fn map_toggles_to_toggles_response(
    opt_input_hash: Option<&str>,
    toggles: &Toggles,
) -> (r: TogglesResponse)
    ensures
        negotiated(client_text(opt_input_hash), toggles_hash_text(toggles@), toggles@, r),
{
    let server_hash = encoded_hash(toggles);
    negotiate(opt_input_hash, server_hash, toggles)
}

/// The hash depends on the ordered (name, value) pairs alone: two toggle
/// sets with the same pairs in the same order hash alike, digest and text.
pub proof fn lemma_hash_stable(first: Toggles, second: Toggles)
    requires
        first@ == second@,
    ensures
        toggles_digest(first@) == toggles_digest(second@),
        toggles_hash_text(first@) == toggles_hash_text(second@),
{
}

} // verus!
