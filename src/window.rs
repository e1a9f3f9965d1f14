use vstd::prelude::*;

verus! {

/// The title of the game's window.
pub open spec fn risk_title() -> Seq<char> {
    seq!['R', 'I', 'S', 'K']
}

/// The position of the first window whose title equals `title` exactly,
/// among the titles of the open windows in the order they were listed.
pub fn find_window(titles: &Vec<String>, title: &str) -> (r: Option<usize>)
    ensures
        r is Some ==> r->0 < titles.len() && titles[r->0 as int]@ == title@,
        r is Some ==> forall|j: int| 0 <= j < r->0 ==> titles[j]@ != title@,
        r is None ==> forall|j: int| 0 <= j < titles.len() ==> titles[j]@ != title@,
{
    let wanted: String = title.to_owned();
    let mut i: usize = 0;
    while i < titles.len()
        invariant
            i <= titles.len(),
            wanted@ == title@,
            forall|j: int| 0 <= j < i ==> titles[j]@ != title@,
        decreases titles.len() - i,
    {
        if titles[i] == wanted {
            return Some(i);
        }
        i = i + 1;
    }
    None
}

/// The position of the game's window (titled `RISK`) among the listed
/// window titles, if it is open.
pub fn risk_window(titles: &Vec<String>) -> (r: Option<usize>)
    ensures
        r is Some ==> r->0 < titles.len() && titles[r->0 as int]@ == risk_title(),
        r is Some ==> forall|j: int| 0 <= j < r->0 ==> titles[j]@ != risk_title(),
        r is None ==> forall|j: int| 0 <= j < titles.len() ==> titles[j]@ != risk_title(),
{
    proof {
        reveal_strlit("RISK");
    }
    assert("RISK"@ == risk_title());
    find_window(titles, "RISK")
}

} // verus!
