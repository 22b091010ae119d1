//! Treatment selection: the deterministic draw, segment overrides and the
//! toggle set of one user within one context.

use rand::{Rng, SeedableRng};
use rand_pcg::Pcg32;
use std::collections::hash_map::DefaultHasher;
use std::hash::Hasher;
use vstd::prelude::*;
use vstd::std_specs::hash::DefaultHasherAdditionalSpecFns;
use vstd::string::StringExecFns;
use vstd::utf8::encode_utf8;

verus! {

/// All loaded contexts, by name. A later entry shadows an earlier entry
/// with the same name.
#[derive(Debug)]
pub struct Contexts {
    pub contexts: Vec<(String, Context)>,
}

/// A named configuration scope: its features in declaration order and its
/// segments by name (a later entry shadows an earlier one with the same name).
#[derive(Debug)]
pub struct Context {
    pub features: Vec<Feature>,
    pub segments: Vec<(String, Vec<String>)>,
}

#[derive(Debug)]
pub struct Feature {
    pub name: String,
    pub treatments: Vec<Treatment>,
}

#[derive(Debug)]
pub struct Treatment {
    pub probability: i8,
    pub segments: Vec<String>,
    pub value: String,
}

/// The toggles of one user within one context, in feature declaration order.
#[derive(Debug)]
pub struct Toggles {
    pub toggles: Vec<Toggle>,
}

#[derive(Debug)]
pub struct Toggle {
    pub name: String,
    pub value: String,
}

impl View for Toggles {
    /// The (name, value) pairs, in order.
    type V = Seq<(Seq<char>, Seq<char>)>;

    open spec fn view(&self) -> Seq<(Seq<char>, Seq<char>)> {
        self.toggles@.map_values(|t: Toggle| (t.name@, t.value@))
    }
}

/// No treatment of the named feature could be chosen: its probabilities do
/// not reach past the user's draw.
#[derive(Debug)]
pub struct NoTreatmentError {
    pub feature: String,
}

/// What a lookup by `key` finds among named entries: the value of the last
/// entry with that name.
pub open spec fn lookup<V>(entries: Seq<(String, V)>, key: Seq<char>) -> Option<V>
    decreases entries.len(),
{
    if entries.len() == 0 {
        None
    } else if entries.last().0@ == key {
        Some(entries.last().1)
    } else {
        lookup(entries.drop_last(), key)
    }
}

/// Finds the value of the last entry named `key`.
fn find_entry<'a, V>(entries: &'a Vec<(String, V)>, key: &str) -> (r: Option<&'a V>)
    ensures
        match r {
            Some(v) => lookup(entries@, key@) == Some(*v),
            None => lookup(entries@, key@) is None,
        },
{
    let wanted = key.to_owned();
    let mut i: usize = entries.len();
    assert(entries@.subrange(0, i as int) =~= entries@);
    while i > 0
        invariant
            i <= entries@.len(),
            wanted@ == key@,
            lookup(entries@, key@) == lookup(entries@.subrange(0, i as int), key@),
        decreases i,
    {
        let ghost prefix = entries@.subrange(0, i as int);
        i = i - 1;
        assert(prefix.drop_last() =~= entries@.subrange(0, i as int));
        if entries[i].0 == wanted {
            return Some(&entries[i].1);
        }
    }
    assert(entries@.subrange(0, 0) =~= Seq::<(String, V)>::empty());
    None
}

impl Contexts {
    /// The context loaded under `name`.
    pub fn get(&self, name: &str) -> (r: Option<&Context>)
        ensures
            match r {
                Some(c) => lookup(self.contexts@, name@) == Some(*c),
                None => lookup(self.contexts@, name@) is None,
            },
    {
        find_entry(&self.contexts, name)
    }
}

impl Context {
    /// The members of the segment named `name`.
    pub fn segment(&self, name: &str) -> (r: Option<&Vec<String>>)
        ensures
            match r {
                Some(m) => lookup(self.segments@, name@) == Some(*m),
                None => lookup(self.segments@, name@) is None,
            },
    {
        find_entry(&self.segments, name)
    }
}

/// Whether `user` is one of `members` (exact, case-sensitive).
pub open spec fn is_member(members: Seq<String>, user: Seq<char>) -> bool {
    exists|i: int| 0 <= i < members.len() && #[trigger] members[i]@ == user
}

/// Whether `segments` has a segment named `segment` and `user` is in it.
pub open spec fn in_segment(
    segments: Seq<(String, Vec<String>)>,
    segment: Seq<char>,
    user: Seq<char>,
) -> bool {
    match lookup(segments, segment) {
        Some(members) => is_member(members@, user),
        None => false,
    }
}

/// Whether a segment that `t` references holds `user`.
pub open spec fn forces(
    segments: Seq<(String, Vec<String>)>,
    t: Treatment,
    user: Seq<char>,
) -> bool {
    exists|j: int|
        0 <= j < t.segments@.len() && in_segment(segments, #[trigger] t.segments@[j]@, user)
}

/// Treatment `i` is the first one of `ts` that `user`'s segments force.
pub open spec fn first_forced_at(
    segments: Seq<(String, Vec<String>)>,
    ts: Seq<Treatment>,
    user: Seq<char>,
    i: int,
) -> bool {
    &&& 0 <= i < ts.len()
    &&& forces(segments, ts[i], user)
    &&& forall|k: int| 0 <= k < i ==> !forces(segments, #[trigger] ts[k], user)
}

/// The treatment that segment membership forces on `user`, if any.
pub open spec fn forced_treatment(
    segments: Seq<(String, Vec<String>)>,
    ts: Seq<Treatment>,
    user: Seq<char>,
) -> Option<int> {
    if exists|i: int| first_forced_at(segments, ts, user, i) {
        Some(choose|i: int| first_forced_at(segments, ts, user, i))
    } else {
        None
    }
}

/// The forced treatment is the first one that the user's segments force.
pub proof fn lemma_first_forced_unique(
    segments: Seq<(String, Vec<String>)>,
    ts: Seq<Treatment>,
    user: Seq<char>,
    i: int,
)
    requires
        first_forced_at(segments, ts, user, i),
    ensures
        forced_treatment(segments, ts, user) == Some(i),
{
    let j = choose|j: int| first_forced_at(segments, ts, user, j);
    assert(first_forced_at(segments, ts, user, j));
    if j < i {
        assert(!forces(segments, ts[j], user));
    } else if i < j {
        assert(!forces(segments, ts[i], user));
    }
}

/// Sum of the probabilities of the first `n` treatments.
pub open spec fn probability_sum(ts: Seq<Treatment>, n: int) -> int
    decreases n,
{
    if n <= 0 {
        0
    } else {
        probability_sum(ts, n - 1) + ts[n - 1].probability as int
    }
}

/// Whether the probabilities of treatments `0..=i` reach the draw: a
/// remainder that starts at `draw` is no longer positive once they are
/// subtracted from it.
pub open spec fn exhausted_at(ts: Seq<Treatment>, draw: int, i: int) -> bool {
    draw - probability_sum(ts, i + 1) <= 0
}

/// Treatment `i` is the first whose running sum reaches the draw.
pub open spec fn first_exhausted_at(ts: Seq<Treatment>, draw: int, i: int) -> bool {
    &&& 0 <= i < ts.len()
    &&& exhausted_at(ts, draw, i)
    &&& forall|k: int| 0 <= k < i ==> !#[trigger] exhausted_at(ts, draw, k)
}

/// The treatment that `draw` lands in, if the probabilities reach it.
pub open spec fn drawn_treatment(ts: Seq<Treatment>, draw: int) -> Option<int> {
    if exists|i: int| first_exhausted_at(ts, draw, i) {
        Some(choose|i: int| first_exhausted_at(ts, draw, i))
    } else {
        None
    }
}

/// The treatment a draw lands in is the first whose running sum reaches it.
pub proof fn lemma_first_exhausted_unique(ts: Seq<Treatment>, draw: int, i: int)
    requires
        first_exhausted_at(ts, draw, i),
    ensures
        drawn_treatment(ts, draw) == Some(i),
{
    let j = choose|j: int| first_exhausted_at(ts, draw, j);
    assert(first_exhausted_at(ts, draw, j));
    if j < i {
        assert(!exhausted_at(ts, draw, j));
    } else if i < j {
        assert(!exhausted_at(ts, draw, i));
    }
}

/// The treatment chosen for `user` among `ts` with the given draw: a forced
/// one first, else the one the draw lands in.
pub open spec fn chosen_treatment(
    segments: Seq<(String, Vec<String>)>,
    ts: Seq<Treatment>,
    user: Seq<char>,
    draw: int,
) -> Option<int> {
    match forced_treatment(segments, ts, user) {
        Some(i) => Some(i),
        None => drawn_treatment(ts, draw),
    }
}

/// Whether `user` is one of `members`.
fn contains_user(members: &Vec<String>, user: &str) -> (r: bool)
    ensures
        r == is_member(members@, user@),
{
    let wanted = user.to_owned();
    for i in 0..members.len()
        invariant
            wanted@ == user@,
            forall|k: int| 0 <= k < i ==> members@[k]@ != user@,
    {
        if members[i] == wanted {
            return true;
        }
    }
    false
}

/// Checks whether one of the treatments must be chosen because `user` is in
/// a segment it references. The first treatment, in declaration order, with
/// such a segment wins; segments that `context` does not define are skipped.
pub fn find_overriding_treatment<'a>(
    user_identifier: &str,
    context: &Context,
    treatments_slice: &'a [Treatment],
) -> (r: Option<&'a String>)
    ensures
        match forced_treatment(context.segments@, treatments_slice@, user_identifier@) {
            Some(i) => r == Some(&treatments_slice@[i].value),
            None => r is None,
        },
{
    let ghost ts = treatments_slice@;
    let ghost segments = context.segments@;
    let ghost user = user_identifier@;
    for i in 0..treatments_slice.len()
        invariant
            ts == treatments_slice@,
            segments == context.segments@,
            user == user_identifier@,
            forall|k: int| 0 <= k < i ==> !forces(segments, #[trigger] ts[k], user),
    {
        let treatment = &treatments_slice[i];
        for j in 0..treatment.segments.len()
            invariant
                ts == treatments_slice@,
                segments == context.segments@,
                user == user_identifier@,
                *treatment == ts[i as int],
                i < ts.len(),
                forall|k: int| 0 <= k < i ==> !forces(segments, #[trigger] ts[k], user),
                forall|l: int|
                    0 <= l < j ==> !in_segment(segments, #[trigger] treatment.segments@[l]@, user),
        {
            if let Some(members) = context.segment(treatment.segments[j].as_str()) {
                if contains_user(members, user_identifier) {
                    proof {
                        assert(in_segment(segments, treatment.segments@[j as int]@, user));
                        assert(first_forced_at(segments, ts, user, i as int));
                        lemma_first_forced_unique(segments, ts, user, i as int);
                    }
                    return Some(&treatment.value);
                }
            }
        }
    }
    None
}

/// Chooses the treatment of `feature` for `user_identifier` given the draw:
/// a treatment forced by segment membership wins; otherwise the draw is the
/// starting remainder, each treatment's probability is subtracted in turn,
/// and the first treatment that brings it to zero or below is chosen. `None`
/// when the running sum never reaches the draw, a configuration defect.
pub fn pick_treatment<'a>(
    user_identifier: &str,
    feature: &'a Feature,
    context: &Context,
    draw: i8,
) -> (r: Option<&'a String>)
    ensures
        match chosen_treatment(
            context.segments@,
            feature.treatments@,
            user_identifier@,
            draw as int,
        ) {
            Some(i) => r == Some(&feature.treatments@[i].value),
            None => r is None,
        },
{
    let treatments_slice = feature.treatments.as_slice();
    let ghost ts = feature.treatments@;
    match find_overriding_treatment(user_identifier, context, treatments_slice) {
        Some(value) => Some(value),
        None => {
            let mut remainder: i128 = draw as i128;
            for i in 0..treatments_slice.len()
                invariant
                    ts == treatments_slice@,
                    ts == feature.treatments@,
                    forced_treatment(context.segments@, ts, user_identifier@) is None,
                    remainder == draw - probability_sum(ts, i as int),
                    -128 * i <= probability_sum(ts, i as int) <= 128 * i,
                    forall|k: int| 0 <= k < i ==> !#[trigger] exhausted_at(ts, draw as int, k),
            {
                let treatment = &treatments_slice[i];
                assert(*treatment == ts[i as int]);
                remainder = remainder - treatment.probability as i128;
                if remainder <= 0 {
                    proof {
                        assert(first_exhausted_at(ts, draw as int, i as int));
                        lemma_first_exhausted_unique(ts, draw as int, i as int);
                        let user = user_identifier@;
                        let chosen = chosen_treatment(context.segments@, ts, user, draw as int);
                        assert(chosen == Some(i as int));
                    }
                    return Some(&treatment.value);
                }
                assert(!exhausted_at(ts, draw as int, i as int));
            }
            None
        },
    }
}

/// The number in [low, high) that a PCG32 generator seeded from `seed` draws.
pub uninterp spec fn range_draw(seed: u64, low: i8, high: i8) -> i8;

/// Relies on rand_pcg's `Pcg32::seed_from_u64` and rand's `Rng::gen_range`:
/// the generator is a fixed function of the seed, and `gen_range(low, high)`
/// yields a number in [low, high); it panics only when `low >= high`.
#[verifier::external_body]
fn draw_in_range(seed: u64, low: i8, high: i8) -> (r: i8)
    requires
        low < high,
    ensures
        low <= r < high,
        r == range_draw(seed, low, high),
{
    let mut rng = Pcg32::seed_from_u64(seed);
    rng.gen_range(low, high)
}

/// The text whose digest seeds the draw: the three names joined by ':'.
pub open spec fn draw_key(
    context_name: Seq<char>,
    user: Seq<char>,
    feature_name: Seq<char>,
) -> Seq<char> {
    context_name + seq![':'] + user + seq![':'] + feature_name
}

/// What hashing a string feeds a hasher: its UTF-8 bytes, then 0xff.
pub open spec fn string_writes(text: Seq<char>) -> Seq<Seq<u8>> {
    seq![encode_utf8(text), seq![0xffu8]]
}

/// Feeds `text` to `hasher` as hashing a string does: its UTF-8 bytes, then
/// the byte 0xff, which never occurs in UTF-8 and so ends the string.
pub(crate) fn write_str(hasher: &mut DefaultHasher, text: &str)
    ensures
        final(hasher)@ == old(hasher)@ + string_writes(text@),
{
    hasher.write(text.as_bytes());
    let mut end: Vec<u8> = Vec::new();
    end.push(0xff);
    hasher.write(end.as_slice());
    assert(final(hasher)@ =~= old(hasher)@ + string_writes(text@));
}

/// The draw of `user` for a feature of a context.
pub open spec fn draw_of(context_name: Seq<char>, user: Seq<char>, feature_name: Seq<char>) -> i8 {
    range_draw(
        DefaultHasher::spec_finish(string_writes(draw_key(context_name, user, feature_name))),
        1,
        101,
    )
}

/// Deterministically draws an evenly distributed number in [1, 100] from
/// the context name, the user identifier and the feature name.
pub fn deterministic_random_probability(
    context_name: &str,
    name: &str,
    feature_name: &str,
) -> (r: i8)
    ensures
        1 <= r <= 100,
        r == draw_of(context_name@, name@, feature_name@),
{
    let mut key = context_name.to_owned();
    key.append(":");
    key.append(name);
    key.append(":");
    key.append(feature_name);
    proof {
        reveal_strlit(":");
        assert(key@ =~= draw_key(context_name@, name@, feature_name@));
    }
    let mut hasher = DefaultHasher::new();
    write_str(&mut hasher, key.as_str());
    assert(hasher@ =~= string_writes(key@));
    draw_in_range(hasher.finish(), 1, 101)
}

/// The treatment chosen for `user` for `feature` of the context named
/// `context_name`.
pub open spec fn active_index(
    context_name: Seq<char>,
    user: Seq<char>,
    feature: Feature,
    ctx: Context,
) -> Option<int> {
    let draw = draw_of(context_name, user, feature.name@);
    chosen_treatment(ctx.segments@, feature.treatments@, user, draw as int)
}

/// The value of the treatment of `feature` that applies to `user_identifier`;
/// `None` when the feature's probabilities do not reach the user's draw.
pub fn active_treatment<'a>(
    context_name: &str,
    user_identifier: &str,
    feature: &'a Feature,
    context: &Context,
) -> (r: Option<&'a String>)
    ensures
        match active_index(context_name@, user_identifier@, *feature, *context) {
            Some(i) => r == Some(&feature.treatments@[i].value),
            None => r is None,
        },
        weights_valid(feature.treatments@) ==> r is Some,
{
    let draw = deterministic_random_probability(
        context_name,
        user_identifier,
        feature.name.as_str(),
    );
    proof {
        if weights_valid(feature.treatments@) {
            let (segments, ts) = (context.segments@, feature.treatments@);
            lemma_valid_weights_resolve(segments, ts, user_identifier@, draw as int);
        }
    }
    pick_treatment(user_identifier, feature, context, draw)
}

/// `t` is the toggle of feature `k` of `ctx` for `user`.
pub open spec fn is_toggle_of(
    context_name: Seq<char>,
    user: Seq<char>,
    ctx: Context,
    k: int,
    t: Toggle,
) -> bool {
    let feature = ctx.features@[k];
    match active_index(context_name, user, feature, ctx) {
        Some(i) => t.name@ == feature.name@ && t.value@ == feature.treatments@[i].value@,
        None => false,
    }
}

/// Feature `k` is the first feature of `ctx` with no treatment for `user`.
pub open spec fn first_unresolvable_at(
    context_name: Seq<char>,
    user: Seq<char>,
    ctx: Context,
    k: int,
) -> bool {
    &&& 0 <= k < ctx.features@.len()
    &&& active_index(context_name, user, ctx.features@[k], ctx) is None
    &&& forall|j: int|
        0 <= j < k ==> #[trigger] active_index(context_name, user, ctx.features@[j], ctx) is Some
}

/// The toggles of `user_identifier` in the context named `context_name`: one
/// per feature, in declaration order. An unknown context has no toggles. When
/// a feature's probabilities do not reach the user's draw, the first such
/// feature is reported instead; a valid context never reports one.
pub fn find_feature_toggles(
    context_name: &str,
    user_identifier: &str,
    contexts: &Contexts,
) -> (r: Result<Toggles, NoTreatmentError>)
    ensures
        match lookup(contexts.contexts@, context_name@) {
            None => r matches Ok(t) && t.toggles@.len() == 0,
            Some(ctx) => match r {
                Ok(t) => {
                    &&& t.toggles@.len() == ctx.features@.len()
                    &&& forall|k: int|
                        0 <= k < t.toggles@.len() ==> is_toggle_of(
                            context_name@,
                            user_identifier@,
                            ctx,
                            k,
                            #[trigger] t.toggles@[k],
                        )
                },
                Err(e) => exists|k: int|
                    first_unresolvable_at(context_name@, user_identifier@, ctx, k)
                        && e.feature@ == #[trigger] ctx.features@[k].name@,
            },
        },
        lookup(contexts.contexts@, context_name@) matches Some(ctx) && context_valid(ctx)
            ==> r is Ok,
{
    match contexts.get(context_name) {
        None => Ok(Toggles { toggles: Vec::new() }),
        Some(context) => {
            let mut toggles: Vec<Toggle> = Vec::new();
            for k in 0..context.features.len()
                invariant
                    lookup(contexts.contexts@, context_name@) == Some(*context),
                    toggles@.len() == k,
                    forall|j: int|
                        0 <= j < k ==> is_toggle_of(
                            context_name@,
                            user_identifier@,
                            *context,
                            j,
                            #[trigger] toggles@[j],
                        ),
            {
                let feature = &context.features[k];
                match active_treatment(context_name, user_identifier, feature, context) {
                    Some(value) => {
                        toggles.push(Toggle { name: feature.name.clone(), value: value.clone() });
                    },
                    None => {
                        let e = NoTreatmentError { feature: feature.name.clone() };
                        proof {
                            let (c, u) = (context_name@, user_identifier@);
                            let ctx = lookup(contexts.contexts@, context_name@)->Some_0;
                            assert(ctx == *context);
                            assert forall|j: int| 0 <= j < k implies #[trigger] active_index(
                                c,
                                u,
                                ctx.features@[j],
                                ctx,
                            ) is Some by {
                                assert(is_toggle_of(c, u, ctx, j, toggles@[j]));
                            }
                            assert(first_unresolvable_at(c, u, ctx, k as int));
                            assert(e.feature@ == ctx.features@[k as int].name@);
                            assert(!weights_valid(ctx.features@[k as int].treatments@));
                            assert(!context_valid(ctx));
                        }
                        return Err(e);
                    },
                }
            }
            Ok(Toggles { toggles })
        },
    }
}

/// Selection is a function of the context name, the user and the feature:
/// asking twice for a feature with the same name and treatments, within the
/// same context, chooses the same treatment.
pub proof fn lemma_selection_deterministic(
    context_name: Seq<char>,
    user: Seq<char>,
    first: Feature,
    second: Feature,
    ctx: Context,
)
    requires
        first.name@ == second.name@,
        first.treatments@ == second.treatments@,
    ensures
        active_index(context_name, user, first, ctx) == active_index(
            context_name,
            user,
            second,
            ctx,
        ),
        draw_of(context_name, user, first.name@) == draw_of(context_name, user, second.name@),
{
}

/// When a segment referenced by treatment `i` holds the user, and no earlier
/// treatment's segments do, treatment `i` is chosen whatever the draw and
/// whatever the probabilities, zero included.
pub proof fn lemma_override_precedence(
    segments: Seq<(String, Vec<String>)>,
    ts: Seq<Treatment>,
    user: Seq<char>,
    draw: int,
    i: int,
)
    requires
        0 <= i < ts.len(),
        forces(segments, ts[i], user),
        forall|k: int| 0 <= k < i ==> !forces(segments, #[trigger] ts[k], user),
    ensures
        chosen_treatment(segments, ts, user, draw) == Some(i),
{
    lemma_first_forced_unique(segments, ts, user, i);
}

/// Resolving one feature neither reads nor changes another: a feature with
/// the same name and treatments, in two contexts with the same name and
/// segments, gets the same treatment wherever it stands among the features.
pub proof fn lemma_features_independent(
    context_name: Seq<char>,
    user: Seq<char>,
    ctx1: Context,
    i: int,
    ctx2: Context,
    j: int,
)
    requires
        0 <= i < ctx1.features@.len(),
        0 <= j < ctx2.features@.len(),
        ctx1.features@[i].name@ == ctx2.features@[j].name@,
        ctx1.features@[i].treatments@ == ctx2.features@[j].treatments@,
        ctx1.segments@ == ctx2.segments@,
    ensures
        active_index(context_name, user, ctx1.features@[i], ctx1) == active_index(
            context_name,
            user,
            ctx2.features@[j],
            ctx2,
        ),
{
}

proof fn lemma_sum_monotone(ts: Seq<Treatment>, a: int, b: int)
    requires
        0 <= a <= b <= ts.len(),
        forall|k: int| 0 <= k < ts.len() ==> #[trigger] ts[k].probability >= 0,
    ensures
        probability_sum(ts, a) <= probability_sum(ts, b),
    decreases b - a,
{
    if a < b {
        lemma_sum_monotone(ts, a, b - 1);
    }
}

/// With non-negative probabilities, a draw `d >= 1` lands in treatment `i`
/// exactly when `S(i) < d <= S(i + 1)`, where `S(n)` sums the first `n`
/// probabilities: of the draws 1 to 100, each treatment owns a band as wide
/// as its probability (as far as the sums stay within 100), and the bands
/// follow declaration order.
pub proof fn lemma_draw_bands(ts: Seq<Treatment>, draw: int, i: int)
    requires
        1 <= draw,
        0 <= i < ts.len(),
        forall|k: int| 0 <= k < ts.len() ==> #[trigger] ts[k].probability >= 0,
    ensures
        drawn_treatment(ts, draw) == Some(i) <==> probability_sum(ts, i) < draw
            <= probability_sum(ts, i + 1),
{
    if probability_sum(ts, i) < draw <= probability_sum(ts, i + 1) {
        assert forall|k: int| 0 <= k < i implies !#[trigger] exhausted_at(ts, draw, k) by {
            lemma_sum_monotone(ts, k + 1, i);
        }
        assert(first_exhausted_at(ts, draw, i));
        lemma_first_exhausted_unique(ts, draw, i);
    }
    if drawn_treatment(ts, draw) == Some(i) {
        assert(exists|j: int| first_exhausted_at(ts, draw, j));
        assert(first_exhausted_at(ts, draw, i));
        if i > 0 {
            assert(!exhausted_at(ts, draw, i - 1));
        }
    }
}

/// Once the running sum of some treatment reaches the draw, the draw lands
/// in a treatment.
pub proof fn lemma_reached_draw_lands(ts: Seq<Treatment>, draw: int, i: int)
    requires
        0 <= i < ts.len(),
        exhausted_at(ts, draw, i),
    ensures
        drawn_treatment(ts, draw) is Some,
    decreases i,
{
    if exists|k: int| 0 <= k < i && #[trigger] exhausted_at(ts, draw, k) {
        let k = choose|k: int| 0 <= k < i && #[trigger] exhausted_at(ts, draw, k);
        lemma_reached_draw_lands(ts, draw, k);
    } else {
        assert(first_exhausted_at(ts, draw, i));
        lemma_first_exhausted_unique(ts, draw, i);
    }
}

/// Whether the probabilities of `ts` are a valid configuration: none is
/// negative and together they cover every draw, summing to at least 100.
pub open spec fn weights_valid(ts: Seq<Treatment>) -> bool {
    &&& forall|k: int| 0 <= k < ts.len() ==> #[trigger] ts[k].probability >= 0
    &&& probability_sum(ts, ts.len() as int) >= 100
}

/// Whether every feature of `ctx` has valid probabilities.
pub open spec fn context_valid(ctx: Context) -> bool {
    forall|k: int|
        0 <= k < ctx.features@.len() ==> weights_valid(#[trigger] ctx.features@[k].treatments@)
}

/// Whether every loaded context is valid, shadowed ones included.
pub open spec fn contexts_valid(contexts: Seq<(String, Context)>) -> bool {
    forall|i: int| 0 <= i < contexts.len() ==> context_valid(#[trigger] contexts[i].1)
}

/// A feature with valid probabilities always resolves: whatever the user,
/// its segments and any draw up to 100, some treatment is chosen.
pub proof fn lemma_valid_weights_resolve(
    segments: Seq<(String, Vec<String>)>,
    ts: Seq<Treatment>,
    user: Seq<char>,
    draw: int,
)
    requires
        weights_valid(ts),
        draw <= 100,
    ensures
        chosen_treatment(segments, ts, user, draw) is Some,
{
    if forced_treatment(segments, ts, user) is None {
        if ts.len() == 0 {
            assert(probability_sum(ts, 0) == 0);
        } else {
            lemma_reached_draw_lands(ts, draw, ts.len() - 1);
        }
    }
}

/// Whether the probabilities of `ts` are valid.
fn weights_are_valid(ts: &Vec<Treatment>) -> (r: bool)
    ensures
        r == weights_valid(ts@),
{
    let mut sum: i128 = 0;
    for i in 0..ts.len()
        invariant
            sum == probability_sum(ts@, i as int),
            -128 * i <= sum <= 128 * i,
            forall|k: int| 0 <= k < i ==> #[trigger] ts@[k].probability >= 0,
    {
        if ts[i].probability < 0 {
            return false;
        }
        sum = sum + ts[i].probability as i128;
    }
    sum >= 100
}

/// Checks at load time that every feature of every context has valid
/// probabilities, so that no request can meet a feature without a
/// treatment; the first invalid feature found is reported.
pub fn validate_contexts(contexts: &Contexts) -> (r: Result<(), NoTreatmentError>)
    ensures
        r is Ok <==> contexts_valid(contexts.contexts@),
        r matches Err(e) ==> exists|i: int, k: int|
            0 <= i < contexts.contexts@.len() && 0 <= k < contexts.contexts@[i].1.features@.len()
                && !weights_valid(contexts.contexts@[i].1.features@[k].treatments@)
                && e.feature@ == #[trigger] contexts.contexts@[i].1.features@[k].name@,
{
    for i in 0..contexts.contexts.len()
        invariant
            forall|j: int| 0 <= j < i ==> context_valid(#[trigger] contexts.contexts@[j].1),
    {
        let context = &contexts.contexts[i].1;
        for k in 0..context.features.len()
            invariant
                *context == contexts.contexts@[i as int].1,
                i < contexts.contexts@.len(),
                forall|j: int| 0 <= j < i ==> context_valid(#[trigger] contexts.contexts@[j].1),
                forall|l: int|
                    0 <= l < k ==> weights_valid(#[trigger] context.features@[l].treatments@),
        {
            let feature = &context.features[k];
            if !weights_are_valid(&feature.treatments) {
                let e = NoTreatmentError { feature: feature.name.clone() };
                assert(!context_valid(contexts.contexts@[i as int].1));
                assert(e.feature@ == contexts.contexts@[i as int].1.features@[k as int].name@);
                return Err(e);
            }
        }
    }
    Ok(())
}

} // verus!
