//! Sanitization schemes: the passes that a wipe makes, and the data of each.

pub mod stage;

pub use stage::SanitizationStream;
pub use stage::Stage;

use vstd::prelude::*;

verus! {

/// A named way to wipe a device: its passes, in the order in which they are
/// made.
#[derive(Debug, Clone)]
pub struct Scheme {
    pub id: String,
    pub description: String,
    pub stages: Vec<Stage>,
}

/// The schemes that the tool offers, each under its name.
///
/// No two schemes of a repository share a name, so a name finds at most one.
#[derive(Debug, Clone)]
pub struct SchemeRepo {
    schemes: Vec<Scheme>,
}

/// Whether `scheme` is named `id`, is described as `description`, and makes
/// the passes `stages`, where a generated pass may be of any seed.
pub open spec fn is_scheme(
    scheme: Scheme,
    id: Seq<char>,
    description: Seq<char>,
    stages: Seq<Option<u8>>,
) -> bool {
    &&& scheme.id@ == id
    &&& scheme.description@ == description
    &&& scheme.stages@.len() == stages.len()
    &&& forall|i: int|
        0 <= i < stages.len() ==> match stages[i] {
            Some(value) => #[trigger] scheme.stages@[i] == (Stage::Fill { value }),
            None => scheme.stages@[i] is Random,
        }
}

/// Whether `schemes` are the five schemes that the tool knows, ordered by
/// name: `dod`, `gost`, `one`, `random` and `zero`.
pub open spec fn is_standard(schemes: Seq<Scheme>) -> bool {
    &&& schemes.len() == 5
    &&& is_scheme(schemes[0], "dod"@, "DOD 5220.22-M"@, seq![Some(0x00u8), Some(0xffu8), None])
    &&& is_scheme(schemes[1], "gost"@, "GOST R 50739-95"@, seq![Some(0x00u8), None])
    &&& is_scheme(schemes[2], "one"@, "Single ones fill"@, seq![Some(0xffu8)])
    &&& is_scheme(schemes[3], "random"@, "Single random fill"@, seq![None])
    &&& is_scheme(schemes[4], "zero"@, "Single zeroes fill"@, seq![Some(0x00u8)])
}

impl SchemeRepo {
    /// The schemes of the repository, in the order in which it lists them.
    pub closed spec fn view(&self) -> Seq<Scheme> {
        self.schemes@
    }

    /// No two schemes share a name.
    pub open spec fn wf(&self) -> bool {
        forall|i: int, j: int|
            0 <= i < j < self@.len() ==> (#[trigger] self@[i]).id@ != (#[trigger] self@[j]).id@
    }

    /// Every scheme of the repository.
    pub fn all(&self) -> (schemes: &Vec<Scheme>)
        ensures
            schemes@ == self@,
    {
        &self.schemes
    }

    /// The scheme named `id`, if the repository has one.
    pub fn find(&self, id: &str) -> (found: Option<&Scheme>)
        ensures
            match found {
                Some(scheme) => exists|i: int|
                    0 <= i < self@.len() && #[trigger] self@[i] == *scheme && scheme.id@ == id@,
                None => forall|i: int| 0 <= i < self@.len() ==> (#[trigger] self@[i]).id@ != id@,
            },
    {
        let wanted = id.to_owned();
        let mut index: usize = 0;
        while index < self.schemes.len()
            invariant
                index <= self.schemes@.len(),
                wanted@ == id@,
                forall|i: int| 0 <= i < index ==> (#[trigger] self.schemes@[i]).id@ != id@,
            decreases self.schemes@.len() - index,
        {
            if self.schemes[index].id == wanted {
                proof {
                    let at = index as int;
                    assert(self@[at] == self.schemes@[at] && self@[at].id@ == id@);
                }
                return Some(&self.schemes[index]);
            }
            index = index + 1;
        }
        None
    }
}

impl Default for SchemeRepo {
    /// The five schemes that the tool knows. Each generated pass gets a seed
    /// of its own, drawn now.
    fn default() -> (repo: Self)
        ensures
            is_standard(repo@),
            repo.wf(),
    {
        let mut schemes: Vec<Scheme> = Vec::new();
        schemes.push(
            Scheme {
                id: "dod".to_owned(),
                description: "DOD 5220.22-M".to_owned(),
                stages: vec![Stage::zero(), Stage::one(), Stage::random()],
            },
        );
        schemes.push(
            Scheme {
                id: "gost".to_owned(),
                description: "GOST R 50739-95".to_owned(),
                stages: vec![Stage::zero(), Stage::random()],
            },
        );
        schemes.push(
            Scheme {
                id: "one".to_owned(),
                description: "Single ones fill".to_owned(),
                stages: vec![Stage::one()],
            },
        );
        schemes.push(
            Scheme {
                id: "random".to_owned(),
                description: "Single random fill".to_owned(),
                stages: vec![Stage::random()],
            },
        );
        schemes.push(
            Scheme {
                id: "zero".to_owned(),
                description: "Single zeroes fill".to_owned(),
                stages: vec![Stage::zero()],
            },
        );
        proof {
            reveal_strlit("dod");
            reveal_strlit("gost");
            reveal_strlit("one");
            reveal_strlit("random");
            reveal_strlit("zero");
            assert("dod"@[0] != "one"@[0]);
            assert("gost"@[0] != "zero"@[0]);
        }
        SchemeRepo { schemes }
    }
}

} // verus!
