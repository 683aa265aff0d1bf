//! Prompts kept in memory, looked up by name while rendering.

use vstd::prelude::*;
use crate::prompt::{Prompt, PromptView};

verus! {

/// A collection of prompts keyed by name. Saving a prompt under a name that
/// is already taken replaces the earlier one.
#[derive(Debug, Clone)]
pub struct MemoryStorage {
    /// The prompts in order of saving; a later one overrides earlier ones of
    /// the same name.
    prompts: Vec<Prompt>,
}

/// The prompts by name that a sequence of saved prompts stands for, later
/// ones overriding earlier ones.
pub open spec fn prompts_map(prompts: Seq<Prompt>) -> Map<Seq<char>, PromptView>
    decreases prompts.len(),
{
    if prompts.len() == 0 {
        Map::empty()
    } else {
        let p = prompts.last();
        prompts_map(prompts.drop_last()).insert(p.metadata.name@, p@)
    }
}

/// Looking a name up finds the last prompt saved under it, and nothing where
/// none was.
proof fn lemma_prompts_lookup(prompts: Seq<Prompt>, i: int, name: Seq<char>)
    requires
        -1 <= i < prompts.len(),
        forall|j: int| i < j < prompts.len() ==> (#[trigger] prompts[j]).metadata.name@ != name,
        0 <= i ==> prompts[i].metadata.name@ == name,
    ensures
        0 <= i ==> prompts_map(prompts).contains_key(name) && prompts_map(prompts)[name]
            == prompts[i]@,
        i == -1 ==> !prompts_map(prompts).contains_key(name),
    decreases prompts.len(),
{
    if prompts.len() > 0 && i < prompts.len() - 1 {
        let shorter = prompts.drop_last();
        assert forall|j: int| i < j < shorter.len() implies (
        #[trigger] shorter[j]).metadata.name@ != name by {
            assert(shorter[j] == prompts[j]);
        }
        lemma_prompts_lookup(shorter, i, name);
    }
}

impl View for MemoryStorage {
    type V = Map<Seq<char>, PromptView>;

    closed spec fn view(&self) -> Map<Seq<char>, PromptView> {
        prompts_map(self.prompts@)
    }
}

impl MemoryStorage {
    /// A storage with no prompts.
    pub fn new() -> (r: MemoryStorage)
        ensures
            r@ == Map::<Seq<char>, PromptView>::empty(),
    {
        MemoryStorage { prompts: Vec::new() }
    }

    /// Saves `prompt` under its name, replacing any prompt of that name.
    pub fn save_prompt(&mut self, prompt: Prompt)
        ensures
            final(self)@ == old(self)@.insert(prompt.metadata.name@, prompt@),
    {
        self.prompts.push(prompt);
        assert(self.prompts@.drop_last() =~= old(self).prompts@);
    }

    /// The prompt saved under `name`, or `None` where there is none.
    pub fn get_prompt(&self, name: &String) -> (r: Option<&Prompt>)
        ensures
            match r {
                Some(p) => self@.contains_key(name@) && self@[name@] == p@,
                None => !self@.contains_key(name@),
            },
    {
        let mut i = self.prompts.len();
        while i > 0
            invariant
                i <= self.prompts.len(),
                forall|j: int|
                    i <= j < self.prompts.len() ==> (#[trigger] self.prompts@[j]).metadata.name@
                        != name@,
            decreases i,
        {
            i -= 1;
            if self.prompts[i].metadata.name == *name {
                proof {
                    lemma_prompts_lookup(self.prompts@, i as int, name@);
                }
                return Some(&self.prompts[i]);
            }
        }
        proof {
            lemma_prompts_lookup(self.prompts@, -1, name@);
        }
        None
    }
}

} // verus!
