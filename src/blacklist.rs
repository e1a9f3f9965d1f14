use vstd::prelude::*;

verus! {

/// A known player to flag when seen again.
#[derive(Clone, Debug)]
pub struct Moron {
    /// The player's display name.
    pub username: String,
    /// Why the player is listed.
    pub reason: String,
}

/// The list of known players.
#[derive(Clone, Debug)]
pub struct Blacklist {
    pub morons: Vec<Moron>,
}

impl Blacklist {
    /// The display names of the listed players, in order.
    pub open spec fn names(&self) -> Seq<Seq<char>> {
        self.morons@.map_values(|m: Moron| m.username@)
    }
}

impl Default for Blacklist {
    /// Two example entries that show how an entry is written.
    fn default() -> (r: Self)
        ensures
            r.morons.len() == 2,
            r.morons[0].username@ == "Example User #1"@,
            r.morons[0].reason@ == "Copy and paste the { } block to add more entries"@,
            r.morons[1].username@ == "Example User #2"@,
            r.morons[1].reason@ == "Don't forget the comma at the end of the block."@,
    {
        let mut morons: Vec<Moron> = Vec::new();
        morons.push(
            Moron {
                username: "Example User #1".to_owned(),
                reason: "Copy and paste the { } block to add more entries".to_owned(),
            },
        );
        morons.push(
            Moron {
                username: "Example User #2".to_owned(),
                reason: "Don't forget the comma at the end of the block.".to_owned(),
            },
        );
        Blacklist { morons }
    }
}

} // verus!
