//! The display surface and its pending updates.
//!
//! An update of the display is asynchronous: the surface hands out a token
//! for the rectangle that it refreshes, and the update is pending until a
//! wait on that token succeeds.

use vstd::prelude::*;
use fnv::FnvHashMap;
use crate::geom::Rectangle;

verus! {

/// The waveforms with which the display refreshes a region.
#[derive(Debug, Copy, Clone, Eq, PartialEq, Structural)]
pub enum UpdateMode {
    Gui,
    Partial,
    Full,
    Fast,
    FastMono,
}

/// A display surface, as far as the rendering engine needs one.
pub trait Framebuffer: Sized {
    /// Whether a wait for the update behind `token` succeeds on this surface.
    /// An implementation that is verified says so; for any other it is left
    /// open.
    open spec fn completes(&self, token: u32) -> bool {
        arbitrary()
    }

    /// Blocks until the update behind `token` is on the display; returns
    /// whether it got there.
    fn wait(&self, token: u32) -> (done: bool)
        ensures
            done == self.completes(token),
    ;
}

/// A display that stands in for a real one: the updates behind the tokens
/// that it holds have got to the screen, and no other update ever does.
#[derive(Debug)]
pub struct Simulated {
    pub done: Vec<u32>,
}

impl Framebuffer for Simulated {
    open spec fn completes(&self, token: u32) -> bool {
        self.done@.contains(token)
    }

    fn wait(&self, token: u32) -> (done: bool) {
        let mut i: usize = 0;
        while i < self.done.len()
            invariant
                i <= self.done.len(),
                forall|j: int| 0 <= j < i ==> self.done[j] != token,
            decreases self.done.len() - i,
        {
            if self.done[i] == token {
                return true;
            }
            i = i + 1;
        }
        false
    }
}

/// The hasher of the maps and sets of `fnv`; nothing is said of it.
#[verifier::external_type_specification]
#[verifier::external_body]
pub struct ExFnvHasher(fnv::FnvHasher);

/// The maker of hashers that the maps and sets of `fnv` are built with;
/// nothing is said of it.
#[verifier::external_type_specification]
#[verifier::external_body]
#[verifier::reject_recursive_types(H)]
pub struct ExBuildHasherDefault<H>(std::hash::BuildHasherDefault<H>);

/// The pending updates that are left once every update that touches `rect`
/// has been waited for on `fb`: those that do not touch it, and those whose
/// wait failed.
pub open spec fn settled<F: Framebuffer>(
    updating: Map<u32, Rectangle>,
    rect: Rectangle,
    fb: F,
) -> Map<u32, Rectangle> {
    Map::new(
        |token: u32|
            updating.contains_key(token) && !(rect.overlaps(&updating[token]) && fb.completes(
                token,
            )),
        |token: u32| updating[token],
    )
}

/// The first components of a sequence of pairs.
pub open spec fn tokens_of(entries: Seq<(u32, Rectangle)>) -> Seq<u32> {
    entries.map_values(|entry: (u32, Rectangle)| entry.0)
}

/// Hands out the entries of the map: `FnvHashMap::iter`, with each token and
/// rectangle copied out. The order is that of the hash table, so nothing is
/// said of it: every entry of the map comes once, and nothing else comes.
#[verifier::external_body]
fn pending_updates(updating: &FnvHashMap<u32, Rectangle>) -> (entries: Vec<(u32, Rectangle)>)
    ensures
        tokens_of(entries@).no_duplicates(),
        forall|i: int|
            0 <= i < entries@.len() ==> updating@.contains_key(#[trigger] entries@[i].0)
                && updating@[entries@[i].0] == entries@[i].1,
        forall|token: u32|
            updating@.contains_key(token) ==> tokens_of(entries@).contains(token),
{
    updating.iter().map(|(token, rect)| (*token, *rect)).collect()
}

/// Takes the entry of `token` out of the map: `FnvHashMap::remove`. The
/// other entries stay as they are.
#[verifier::external_body]
fn forget_update(updating: &mut FnvHashMap<u32, Rectangle>, token: u32)
    ensures
        final(updating)@ == old(updating)@.remove(token),
{
    updating.remove(&token);
}

/// Waits for every pending update that touches `rect`, and forgets those
/// whose wait succeeded.
pub fn wait_for_overlapping<F: Framebuffer>(
    rect: &Rectangle,
    fb: &F,
    updating: &mut FnvHashMap<u32, Rectangle>,
)
    ensures
        final(updating)@ == settled(old(updating)@, *rect, *fb),
{
    let ghost start = updating@;
    let entries = pending_updates(updating);
    let mut i: usize = 0;
    while i < entries.len()
        invariant
            i <= entries.len(),
            tokens_of(entries@).no_duplicates(),
            forall|j: int|
                0 <= j < entries@.len() ==> start.contains_key(#[trigger] entries@[j].0)
                    && start[entries@[j].0] == entries@[j].1,
            forall|token: u32| start.contains_key(token) ==> tokens_of(entries@).contains(token),
            updating@ == Map::new(
                |token: u32|
                    start.contains_key(token) && !(tokens_of(entries@).take(i as int).contains(
                        token,
                    ) && rect.overlaps(&start[token]) && fb.completes(token)),
                |token: u32| start[token],
            ),
        decreases entries.len() - i,
    {
        let (token, pending) = entries[i];
        let ghost before = updating@;
        let ghost seen = tokens_of(entries@).take(i as int);
        proof {
            assert(tokens_of(entries@)[i as int] == token);
            assert(tokens_of(entries@).take(i + 1) =~= seen.push(token));
            assert(!seen.contains(token)) by {
                if seen.contains(token) {
                    let j = choose|j: int| 0 <= j < seen.len() && seen[j] == token;
                    assert(tokens_of(entries@)[j] == token);
                }
            }
            assert forall|t: u32| seen.push(token).contains(t) <==> seen.contains(t) || t
                == token by {
                if seen.contains(t) {
                    let j = choose|j: int| 0 <= j < seen.len() && seen[j] == t;
                    assert(seen.push(token)[j] == t);
                }
                if t == token {
                    assert(seen.push(token)[seen.len() as int] == t);
                }
            }
        }
        if rect.overlaps(&pending) && fb.wait(token) {
            forget_update(updating, token);
        }
        proof {
            assert(updating@ =~= Map::new(
                |t: u32|
                    start.contains_key(t) && !(tokens_of(entries@).take(i + 1).contains(t)
                        && rect.overlaps(&start[t]) && fb.completes(t)),
                |t: u32| start[t],
            ));
        }
        i = i + 1;
    }
    proof {
        assert(tokens_of(entries@).take(i as int) =~= tokens_of(entries@));
        assert(updating@ =~= settled(start, *rect, *fb));
    }
}

} // verus!
