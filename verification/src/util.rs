//! Choosing the program that starts a game.

use crate::text::{chars_of, matches_at, occurs_at};
use vstd::prelude::*;

verus! {

/// Whether `pat` occurs somewhere in `s`.
pub open spec fn contains_sub(s: Seq<char>, pat: Seq<char>) -> bool {
    exists|at: int| occurs_at(s, at, pat)
}

/// Whether a program of this name can be the one that starts a game: it is
/// neither an uninstaller nor a crash reporter.
pub open spec fn is_candidate(name: Seq<char>) -> bool {
    !contains_sub(name, "uninst"@) && !contains_sub(name, "crashpad"@)
}

/// Whether a program of this name looks like the one that starts the game
/// in the given folder: its name holds `game` or the name of the folder.
pub open spec fn is_likely(name: Seq<char>, folder: Seq<char>) -> bool {
    contains_sub(name, "game"@) || contains_sub(name, folder)
}

/// Whether `pat` occurs somewhere in `s`.
pub fn contains(s: &Vec<char>, pat: &Vec<char>) -> (found: bool)
    ensures
        found == contains_sub(s@, pat@),
{
    let mut at: usize = 0;
    while at < s.len()
        invariant
            at <= s.len(),
            forall|j: int| 0 <= j < at ==> !occurs_at(s@, j, pat@),
        decreases s.len() - at,
    {
        if matches_at(s, at, pat) {
            return true;
        }
        at = at + 1;
    }
    if matches_at(s, at, pat) {
        return true;
    }
    assert forall|j: int| !occurs_at(s@, j, pat@) by {
        if 0 <= j && j + pat@.len() <= s@.len() {
            assert(j <= at);
        }
    }
    false
}

/// The place, among the programs of a game's folder, of the one that
/// starts the game. The names are those of the programs, in lower case and
/// in the order in which the folder lists them; `folder` is the name of the
/// folder, in lower case.
///
/// Of the candidates, the first likely one is chosen, and where none is
/// likely, the first one. There is no choice where there is no candidate.
pub fn pick_start_up(names: &Vec<String>, folder: &str) -> (r: Option<usize>)
    ensures
        r is None <==> forall|j: int| 0 <= j < names.len() ==> !is_candidate(#[trigger] names@[j]@),
        match r {
            Some(at) => {
                &&& at < names.len()
                &&& is_candidate(names@[at as int]@)
                &&& forall|j: int|
                    0 <= j < at ==> !(is_candidate(#[trigger] names@[j]@) && is_likely(
                        names@[j]@,
                        folder@,
                    ))
                &&& !is_likely(names@[at as int]@, folder@) ==> {
                    &&& forall|j: int| 0 <= j < at ==> !is_candidate(#[trigger] names@[j]@)
                    &&& forall|j: int|
                        0 <= j < names.len() ==> !(is_candidate(#[trigger] names@[j]@)
                            && is_likely(names@[j]@, folder@))
                }
            },
            None => true,
        },
{
    let uninst = chars_of("uninst");
    let crashpad = chars_of("crashpad");
    let game = chars_of("game");
    let dir = chars_of(folder);
    let mut first: Option<usize> = None;
    let mut i: usize = 0;
    while i < names.len()
        invariant
            i <= names.len(),
            uninst@ == "uninst"@,
            crashpad@ == "crashpad"@,
            game@ == "game"@,
            dir@ == folder@,
            forall|j: int|
                0 <= j < i ==> !(is_candidate(#[trigger] names@[j]@) && is_likely(
                    names@[j]@,
                    folder@,
                )),
            match first {
                Some(at) => at < i && is_candidate(names@[at as int]@) && forall|j: int|
                    0 <= j < at ==> !is_candidate(#[trigger] names@[j]@),
                None => forall|j: int| 0 <= j < i ==> !is_candidate(#[trigger] names@[j]@),
            },
        decreases names.len() - i,
    {
        let name = chars_of(names[i].as_str());
        if !contains(&name, &uninst) && !contains(&name, &crashpad) {
            if contains(&name, &game) || contains(&name, &dir) {
                return Some(i);
            }
            if first.is_none() {
                first = Some(i);
            }
        }
        i = i + 1;
    }
    first
}

} // verus!
