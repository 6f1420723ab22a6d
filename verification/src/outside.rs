//! The calls this library makes into outside crates: a seeded pseudo-random
//! generator from `rand`, the fixed-capacity per-core counters from
//! `arrayvec`, and JSON lookups from `rustc_serialize`.

use vstd::prelude::*;
use arrayvec::ArrayVec;
use rand::rngs::SmallRng;

verus! {

#[verifier::external_type_specification]
#[verifier::external_body]
pub struct ExSmallRng(SmallRng);

#[verifier::external_type_specification]
#[verifier::external_body]
#[verifier::reject_recursive_types(T)]
pub struct ExArrayVec<T, const CAP: usize>(ArrayVec<T, CAP>);

/// The values an `ArrayVec<usize, 16>` holds, first to last.
pub uninterp spec fn counter_values(a: ArrayVec<usize, 16>) -> Seq<usize>;

/// The generator that picks the requests' flows, with a record of the seed it
/// was made from and of every number it has given so far, first to last.
pub struct FlowRng {
    rng: SmallRng,
    seed: Ghost<u64>,
    drawn: Ghost<Seq<u64>>,
}

impl FlowRng {
    /// The seed the generator was made from.
    pub closed spec fn seed(&self) -> u64 {
        self.seed@
    }

    /// The numbers the generator has given, first to last.
    pub closed spec fn drawn(&self) -> Seq<u64> {
        self.drawn@
    }
}

/// `<SmallRng as SeedableRng>::seed_from_u64`: a generator made from `seed`,
/// which has given no number yet. What it will give is not stated: `rand`
/// documents the algorithm behind `SmallRng` as platform-dependent and open to change.
#[verifier::external_body]
pub(crate) fn seeded_rng(seed: u64) -> (g: FlowRng)
    ensures
        g.seed() == seed,
        g.drawn() == Seq::<u64>::empty(),
{
    FlowRng { rng: <SmallRng as rand::SeedableRng>::seed_from_u64(seed), seed: Ghost(seed), drawn: Ghost(Seq::empty()) }
}

/// `<SmallRng as RngCore>::next_u64`: the generator's next number, which is
/// added to its record. Which number comes is not stated (any `u64` may).
#[verifier::external_body]
pub(crate) fn next_random(g: &mut FlowRng) -> (x: u64)
    ensures
        final(g).seed() == old(g).seed(),
        final(g).drawn() == old(g).drawn().push(x),
{
    let x = rand::RngCore::next_u64(&mut g.rng);
    g.drawn = Ghost(g.drawn@.push(x));
    x
}

/// The number that a JSON text holds at a path of object keys, if the text
/// parses and that value is a number that fits a `u64`.
pub uninterp spec fn json_u64_named(text: Seq<char>, path: Seq<Seq<char>>) -> Option<u64>;

/// The string that a JSON text holds at a path of object keys, if the text
/// parses and that value is a string.
pub uninterp spec fn json_text_named(text: Seq<char>, path: Seq<Seq<char>>) -> Option<Seq<char>>;

/// The keys of a path, as character sequences.
pub open spec fn path_view(path: Seq<String>) -> Seq<Seq<char>> {
    path.map_values(|k: String| k@)
}

/// `rustc_serialize::json::Json::from_str`, then `find_path` and `as_u64`:
/// the number at `path` in `text`; `None` when the text does not parse, a
/// key is missing or the value is no `u64`. A parse depends on its input alone.
#[verifier::external_body]
pub(crate) fn json_u64_at(text: &str, path: &Vec<String>) -> (r: Option<u64>)
    ensures
        r == json_u64_named(text@, path_view(path@)),
{
    let keys: Vec<&str> = path.iter().map(|k| k.as_str()).collect();
    match rustc_serialize::json::Json::from_str(text) {
        Ok(json) => json.find_path(&keys).and_then(|v| v.as_u64()),
        Err(_) => None,
    }
}

/// `rustc_serialize::json::Json::from_str`, then `find_path` and `as_string`:
/// the string at `path` in `text`; `None` when the text does not parse, a key
/// is missing or the value is no string.
#[verifier::external_body]
pub(crate) fn json_text_at(text: &str, path: &Vec<String>) -> (r: Option<String>)
    ensures
        r matches Some(s) ==> json_text_named(text@, path_view(path@)) == Some(s@),
        r is None ==> json_text_named(text@, path_view(path@)) is None,
{
    let keys: Vec<&str> = path.iter().map(|k| k.as_str()).collect();
    match rustc_serialize::json::Json::from_str(text) {
        Ok(json) => json.find_path(&keys).and_then(|v| v.as_string()).map(|s| s.to_string()),
        Err(_) => None,
    }
}

/// `ArrayVec::new`: an empty vector.
#[verifier::external_body]
pub(crate) fn new_counters() -> (a: ArrayVec<usize, 16>)
    ensures
        counter_values(a) == Seq::<usize>::empty(),
{
    ArrayVec::new()
}

/// `ArrayVec::push`: appends `x`; it panics when the vector is full, so a
/// caller must leave room.
#[verifier::external_body]
pub(crate) fn push_counter(a: &mut ArrayVec<usize, 16>, x: usize)
    requires
        counter_values(*old(a)).len() < 16,
    ensures
        counter_values(*final(a)) == counter_values(*old(a)).push(x),
{
    a.push(x)
}

/// `ArrayVec::as_slice`: the values, first to last.
#[verifier::external_body]
pub(crate) fn counters_slice(a: &ArrayVec<usize, 16>) -> (s: &[usize])
    ensures
        s@ == counter_values(*a),
{
    a.as_slice()
}

/// `ArrayVec::as_mut_slice`: the values as a mutable slice, whose final
/// contents become the vector's.
#[verifier::external_body]
pub(crate) fn counters_slice_mut(a: &mut ArrayVec<usize, 16>) -> (s: &mut [usize])
    ensures
        s@ == counter_values(*old(a)),
        counter_values(*final(a)) == final(s)@,
{
    a.as_mut_slice()
}

} // verus!
