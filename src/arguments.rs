//! The argument mapping handed to the renderer.

use vstd::prelude::*;

verus! {

/// A mapping from argument names to values. Inserting a name again replaces
/// its value.
#[derive(Debug, Clone)]
pub struct PromptArguments {
    /// Name and value pairs in order of insertion; a later pair for a name
    /// overrides the earlier ones.
    entries: Vec<(String, String)>,
}

/// The mapping that a sequence of pairs stands for, later pairs overriding
/// earlier ones.
pub open spec fn entries_map(entries: Seq<(String, String)>) -> Map<Seq<char>, Seq<char>>
    decreases entries.len(),
{
    if entries.len() == 0 {
        Map::empty()
    } else {
        let (key, value) = entries.last();
        entries_map(entries.drop_last()).insert(key@, value@)
    }
}

/// Looking a name up finds the value of its last pair, and nothing where no
/// pair has it.
proof fn lemma_entries_lookup(entries: Seq<(String, String)>, i: int, key: Seq<char>)
    requires
        -1 <= i < entries.len(),
        forall|j: int| i < j < entries.len() ==> (#[trigger] entries[j]).0@ != key,
        0 <= i ==> entries[i].0@ == key,
    ensures
        0 <= i ==> entries_map(entries).contains_key(key) && entries_map(entries)[key]
            == entries[i].1@,
        i == -1 ==> !entries_map(entries).contains_key(key),
    decreases entries.len(),
{
    if entries.len() > 0 && i < entries.len() - 1 {
        let shorter = entries.drop_last();
        assert forall|j: int| i < j < shorter.len() implies (#[trigger] shorter[j]).0@ != key by {
            assert(shorter[j] == entries[j]);
        }
        lemma_entries_lookup(shorter, i, key);
    }
}

impl View for PromptArguments {
    type V = Map<Seq<char>, Seq<char>>;

    closed spec fn view(&self) -> Map<Seq<char>, Seq<char>> {
        entries_map(self.entries@)
    }
}

impl PromptArguments {
    /// An empty mapping.
    pub fn new() -> (r: PromptArguments)
        ensures
            r@ == Map::<Seq<char>, Seq<char>>::empty(),
    {
        PromptArguments { entries: Vec::new() }
    }

    /// Maps `name` to `value`, replacing any earlier value.
    pub fn insert(&mut self, name: String, value: String)
        ensures
            final(self)@ == old(self)@.insert(name@, value@),
    {
        self.entries.push((name, value));
        assert(self.entries@.drop_last() =~= old(self).entries@);
    }

    /// The value of `name`, if it has one.
    pub fn get(&self, name: &String) -> (r: Option<&String>)
        ensures
            match r {
                Some(v) => self@.contains_key(name@) && self@[name@] == v@,
                None => !self@.contains_key(name@),
            },
    {
        let mut i = self.entries.len();
        while i > 0
            invariant
                i <= self.entries.len(),
                forall|j: int| i <= j < self.entries.len() ==> (#[trigger] self.entries@[j]).0@ != name@,
            decreases i,
        {
            i -= 1;
            if self.entries[i].0 == *name {
                proof {
                    lemma_entries_lookup(self.entries@, i as int, name@);
                }
                return Some(&self.entries[i].1);
            }
        }
        proof {
            lemma_entries_lookup(self.entries@, -1, name@);
        }
        None
    }
}

} // verus!
