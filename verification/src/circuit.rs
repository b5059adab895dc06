//! Identifier types exchanged with the circuit-discovery collaborators, and
//! the indirect-object-identification (IOI) reference data for GPT-2 small.
//!
//! Circuit discovery itself scores attention patterns and is an external
//! collaborator of the capture engine; only the plain data it exchanges with
//! the engine lives here.

use vstd::prelude::*;

verus! {

/// Types of components in a transformer circuit.
#[derive(Debug, Clone, Copy, PartialEq, Eq, Hash)]
pub enum ComponentType {
    Embedding,
    AttentionHead,
    MLP,
    LayerNorm,
    Residual,
    Unembedding,
}

/// A node in a computational circuit.
#[derive(Debug, Clone, PartialEq, Eq, Hash)]
pub struct CircuitNode {
    /// Layer index.
    pub layer: usize,
    /// Component type.
    pub component: ComponentType,
    /// Head index, for attention components.
    pub head: Option<usize>,
    /// Token position, if position-specific.
    pub position: Option<usize>,
}

/// Token roles in an IOI sentence.
#[derive(Debug, Clone, Copy, PartialEq, Eq, Hash, Structural)]
pub enum IOITokenRole {
    /// Subject name (the name that repeats).
    Subject,
    /// Indirect object name (the correct answer).
    IndirectObject,
    /// Second occurrence of the subject name.
    SubjectRepeat,
    /// The token position where the prediction happens.
    EndPosition,
    /// Any other token.
    Other,
}

/// The first position annotated for `role`, if any: the earliest entry for
/// the role decides, and an entry with no positions yields nothing.
pub open spec fn spec_first_position(
    entries: Seq<(IOITokenRole, Vec<usize>)>,
    role: IOITokenRole,
) -> Option<usize>
    decreases entries.len(),
{
    if entries.len() == 0 {
        None
    } else if entries[0].0 == role {
        if entries[0].1@.len() > 0 {
            Some(entries[0].1@[0])
        } else {
            None
        }
    } else {
        spec_first_position(entries.skip(1), role)
    }
}

/// A parsed IOI sentence with token role annotations.
#[derive(Debug, Clone)]
pub struct IOISentence {
    /// Token IDs.
    pub tokens: Vec<u32>,
    /// Token strings.
    pub token_strings: Vec<String>,
    /// Positions annotated for each role.
    pub token_positions: Vec<(IOITokenRole, Vec<usize>)>,
    /// The correct answer (the indirect object's name).
    pub correct_answer: String,
    /// The distractor (the subject's name).
    pub distractor: String,
}

impl IOISentence {
    /// Create a new IOI sentence with manual position annotations.
    pub fn new(
        tokens: Vec<u32>,
        token_strings: Vec<String>,
        subject_positions: Vec<usize>,
        io_position: usize,
        subject2_position: usize,
        end_position: usize,
        correct_answer: String,
        distractor: String,
    ) -> (r: IOISentence)
        ensures
            r.tokens@ == tokens@,
            r.token_strings@ == token_strings@,
            r.correct_answer@ == correct_answer@,
            r.distractor@ == distractor@,
            spec_first_position(r.token_positions@, IOITokenRole::Subject) == (
            if subject_positions@.len() > 0 {
                Some(subject_positions@[0])
            } else {
                None
            }),
            spec_first_position(r.token_positions@, IOITokenRole::IndirectObject) == Some(
                io_position,
            ),
            spec_first_position(r.token_positions@, IOITokenRole::SubjectRepeat) == Some(
                subject2_position,
            ),
            spec_first_position(r.token_positions@, IOITokenRole::EndPosition) == Some(
                end_position,
            ),
    {
        let mut io_vec: Vec<usize> = Vec::new();
        io_vec.push(io_position);
        let mut s2_vec: Vec<usize> = Vec::new();
        s2_vec.push(subject2_position);
        let mut end_vec: Vec<usize> = Vec::new();
        end_vec.push(end_position);
        let mut token_positions: Vec<(IOITokenRole, Vec<usize>)> = Vec::new();
        token_positions.push((IOITokenRole::Subject, subject_positions));
        token_positions.push((IOITokenRole::IndirectObject, io_vec));
        token_positions.push((IOITokenRole::SubjectRepeat, s2_vec));
        token_positions.push((IOITokenRole::EndPosition, end_vec));
        let r = IOISentence {
            tokens,
            token_strings,
            token_positions,
            correct_answer,
            distractor,
        };
        proof {
            reveal_with_fuel(spec_first_position, 5);
            assert(r.token_positions@.skip(1).skip(1) =~= r.token_positions@.skip(2));
            assert(r.token_positions@.skip(2).skip(1) =~= r.token_positions@.skip(3));
            assert(r.token_positions@.skip(3).skip(1) =~= r.token_positions@.skip(4));
        }
        r
    }

    /// The position of the first annotation for `role`, if any.
    pub fn role_position(&self, role: IOITokenRole) -> (r: Option<usize>)
        ensures
            r == spec_first_position(self.token_positions@, role),
    {
        let mut i: usize = 0;
        let n = self.token_positions.len();
        assert(self.token_positions@.skip(0) =~= self.token_positions@);
        while i < n
            invariant
                i <= n,
                n == self.token_positions@.len(),
                spec_first_position(self.token_positions@, role) == spec_first_position(
                    self.token_positions@.skip(i as int),
                    role,
                ),
            decreases n - i,
        {
            proof {
                assert(self.token_positions@.skip(i as int)[0] == self.token_positions@[i as int]);
                assert(self.token_positions@.skip(i as int).skip(1) =~= self.token_positions@.skip(
                    i as int + 1,
                ));
            }
            if self.token_positions[i].0 == role {
                if self.token_positions[i].1.len() > 0 {
                    return Some(self.token_positions[i].1[0]);
                } else {
                    return None;
                }
            }
            i = i + 1;
        }
        None
    }

    /// The indirect object's position.
    pub fn io_position(&self) -> (r: Option<usize>)
        ensures
            r == spec_first_position(self.token_positions@, IOITokenRole::IndirectObject),
    {
        self.role_position(IOITokenRole::IndirectObject)
    }

    /// The subject-repeat (S2) position.
    pub fn s2_position(&self) -> (r: Option<usize>)
        ensures
            r == spec_first_position(self.token_positions@, IOITokenRole::SubjectRepeat),
    {
        self.role_position(IOITokenRole::SubjectRepeat)
    }

    /// The end position, where the prediction happens.
    pub fn end_position(&self) -> (r: Option<usize>)
        ensures
            r == spec_first_position(self.token_positions@, IOITokenRole::EndPosition),
    {
        self.role_position(IOITokenRole::EndPosition)
    }
}

/// Attention heads of GPT-2 small known to implement the IOI circuit.
pub struct KnownIOIHeads;

impl KnownIOIHeads {
    /// Known Name Mover heads, as (layer, head) pairs.
    pub fn name_movers_gpt2() -> (r: Vec<(usize, usize)>)
        ensures
            r@ =~= seq![(9usize, 9usize), (10usize, 0usize), (9usize, 6usize)],
    {
        let mut r: Vec<(usize, usize)> = Vec::new();
        r.push((9, 9));
        r.push((10, 0));
        r.push((9, 6));
        r
    }

    /// Known Backup Name Mover heads.
    pub fn backup_name_movers_gpt2() -> (r: Vec<(usize, usize)>)
        ensures
            r@ =~= seq![
                (10usize, 10usize),
                (10usize, 6usize),
                (10usize, 2usize),
                (11usize, 2usize),
                (9usize, 7usize),
                (10usize, 1usize),
            ],
    {
        let mut r: Vec<(usize, usize)> = Vec::new();
        r.push((10, 10));
        r.push((10, 6));
        r.push((10, 2));
        r.push((11, 2));
        r.push((9, 7));
        r.push((10, 1));
        r
    }

    /// Known S-Inhibition heads.
    pub fn s_inhibition_gpt2() -> (r: Vec<(usize, usize)>)
        ensures
            r@ =~= seq![(7usize, 3usize), (7usize, 9usize), (8usize, 6usize), (8usize, 10usize)],
    {
        let mut r: Vec<(usize, usize)> = Vec::new();
        r.push((7, 3));
        r.push((7, 9));
        r.push((8, 6));
        r.push((8, 10));
        r
    }

    /// Known Duplicate Token heads.
    pub fn duplicate_token_gpt2() -> (r: Vec<(usize, usize)>)
        ensures
            r@ =~= seq![(0usize, 1usize), (0usize, 10usize), (3usize, 0usize)],
    {
        let mut r: Vec<(usize, usize)> = Vec::new();
        r.push((0, 1));
        r.push((0, 10));
        r.push((3, 0));
        r
    }

    /// Every known head group, keyed by component-type name.
    pub fn all_gpt2() -> (r: Vec<(String, Vec<(usize, usize)>)>)
        ensures
            r@.len() == 4,
            r@[0].0@ == "name_mover"@ && r@[0].1@ =~= seq![
                (9usize, 9usize),
                (10usize, 0usize),
                (9usize, 6usize),
            ],
            r@[1].0@ == "backup_name_mover"@ && r@[1].1@ =~= seq![
                (10usize, 10usize),
                (10usize, 6usize),
                (10usize, 2usize),
                (11usize, 2usize),
                (9usize, 7usize),
                (10usize, 1usize),
            ],
            r@[2].0@ == "s_inhibition"@ && r@[2].1@ =~= seq![
                (7usize, 3usize),
                (7usize, 9usize),
                (8usize, 6usize),
                (8usize, 10usize),
            ],
            r@[3].0@ == "duplicate_token"@ && r@[3].1@ =~= seq![
                (0usize, 1usize),
                (0usize, 10usize),
                (3usize, 0usize),
            ],
    {
        let mut r: Vec<(String, Vec<(usize, usize)>)> = Vec::new();
        r.push(("name_mover".to_owned(), Self::name_movers_gpt2()));
        r.push(("backup_name_mover".to_owned(), Self::backup_name_movers_gpt2()));
        r.push(("s_inhibition".to_owned(), Self::s_inhibition_gpt2()));
        r.push(("duplicate_token".to_owned(), Self::duplicate_token_gpt2()));
        r
    }
}

} // verus!
