//! Choosing among the themes that a directory holds.

use vstd::prelude::*;

verus! {

/// Whether a file with this extension holds a theme: `json` or `json5`.
pub fn is_theme_file(extension: &str) -> (b: bool)
    ensures
        b == (extension@ == "json"@ || extension@ == "json5"@),
{
    let given: String = extension.to_owned();
    given == "json".to_owned() || given == "json5".to_owned()
}

/// The place of the theme to activate among the themes that were loaded,
/// given by their names in the order in which they were loaded: the last
/// one that has the wanted name.
pub fn select_active(names: &Vec<String>, target: &str) -> (r: Option<usize>)
    ensures
        match r {
            Some(at) => at < names.len() && names@[at as int]@ == target@ && forall|j: int|
                at < j < names.len() ==> (#[trigger] names@[j])@ != target@,
            None => forall|j: int| 0 <= j < names.len() ==> (#[trigger] names@[j])@ != target@,
        },
{
    let wanted: String = target.to_owned();
    let mut found: Option<usize> = None;
    let mut i: usize = 0;
    while i < names.len()
        invariant
            i <= names.len(),
            wanted@ == target@,
            match found {
                Some(at) => at < i && names@[at as int]@ == target@ && forall|j: int|
                    at < j < i ==> (#[trigger] names@[j])@ != target@,
                None => forall|j: int| 0 <= j < i ==> (#[trigger] names@[j])@ != target@,
            },
        decreases names.len() - i,
    {
        if names[i] == wanted {
            found = Some(i);
        }
        i = i + 1;
    }
    found
}

} // verus!
