//! Named collections of saved items (characters, promotions,
//! weapons): selection and the legality rule for new names.

use vstd::prelude::*;

verus! {

/// What `str::to_lowercase` returns; it depends on the characters alone.
pub uninterp spec fn lower_of(s: Seq<char>) -> Seq<char>;

/// Relies on str::to_lowercase: Unicode lowercasing of the characters.
#[verifier::external_body]
pub(crate) fn lowercase(s: &str) -> (r: String)
    ensures
        r@ == lower_of(s@),
{
    s.to_lowercase()
}

/// Whether the editor pane shows an export or collects an import.
pub enum CodeEditMode {
    Export,
    Importing(String),
}

/// A collection of saved items keyed by name, with one selected.
pub struct DataManaged<V> {
    pub data: Vec<(String, V)>,
    pub selected: String,
    pub renamed: Option<(String, V)>,
    pub edit_mode: CodeEditMode,
}

/// The first position holding the given name.
pub open spec fn name_index<V>(s: Seq<(String, V)>, name: Seq<char>) -> Option<int>
    decreases s.len(),
{
    if s.len() == 0 {
        None
    } else if s[0].0@ == name {
        Some(0int)
    } else {
        match name_index(s.drop_first(), name) {
            Some(i) => Some(i + 1),
            None => None,
        }
    }
}

/// A found index is in range and holds the name.
pub proof fn lemma_name_index<V>(s: Seq<(String, V)>, name: Seq<char>)
    ensures
        name_index(s, name) matches Some(i) ==> 0 <= i < s.len() && s[i].0@ == name,
        name_index(s, name) is None ==> forall|j: int| 0 <= j < s.len() ==> (#[trigger] s[j]).0@
            != name,
    decreases s.len(),
{
    if s.len() > 0 {
        lemma_name_index(s.drop_first(), name);
        if name_index(s, name) is None {
            assert forall|j: int| 0 <= j < s.len() implies (#[trigger] s[j]).0@ != name by {
                if j > 0 {
                    assert(s.drop_first()[j - 1] == s[j]);
                }
            }
        }
    }
}

impl<V> DataManaged<V> {
    pub fn new() -> (r: Self)
        ensures
            r.data@.len() == 0,
            r.selected@ == Seq::<char>::empty(),
            r.renamed is None,
            r.edit_mode matches CodeEditMode::Export,
    {
        DataManaged {
            data: Vec::new(),
            selected: String::new(),
            renamed: None,
            edit_mode: CodeEditMode::Export,
        }
    }

    /// The item the current selection names, if it exists.
    pub fn selected(&self) -> (r: Option<&V>)
        ensures
            name_index(self.data@, self.selected@) matches Some(i) ==> r matches Some(v) && *v
                == self.data@[i].1,
            name_index(self.data@, self.selected@) is None ==> r is None,
    {
        proof {
            lemma_name_index(self.data@, self.selected@);
        }
        let mut i: usize = 0;
        while i < self.data.len()
            invariant
                0 <= i <= self.data.len(),
                forall|j: int| 0 <= j < i ==> (#[trigger] self.data@[j]).0@ != self.selected@,
        decreases self.data.len() - i,
        {
            if self.data[i].0 == self.selected {
                proof {
                    lemma_name_index_skip(self.data@, self.selected@, i as int);
                }
                return Some(&self.data[i].1);
            }
            i = i + 1;
        }
        None
    }

    /// A name may be taken when it is nonempty and no saved item's
    /// name matches it up to lowercasing.
    pub fn check_legal_name(&self, name: &str) -> (r: bool)
        ensures
            r == (name@.len() > 0 && forall|j: int|
                0 <= j < self.data@.len() ==> lower_of((#[trigger] self.data@[j]).0@) != lower_of(
                    name@,
                )),
    {
        if name.unicode_len() == 0 {
            return false;
        }
        let wanted: String = lowercase(name);
        let mut i: usize = 0;
        while i < self.data.len()
            invariant
                0 <= i <= self.data.len(),
                wanted@ == lower_of(name@),
                forall|j: int|
                    0 <= j < i ==> lower_of((#[trigger] self.data@[j]).0@) != lower_of(name@),
            decreases self.data.len() - i,
        {
            let candidate: String = lowercase(self.data[i].0.as_str());
            if candidate == wanted {
                return false;
            }
            i = i + 1;
        }
        true
    }
}

/// A positive `name_index` answer at a position where earlier names miss.
proof fn lemma_name_index_skip<V>(s: Seq<(String, V)>, name: Seq<char>, i: int)
    requires
        0 <= i < s.len(),
        s[i].0@ == name,
        forall|j: int| 0 <= j < i ==> (#[trigger] s[j]).0@ != name,
    ensures
        name_index(s, name) == Some(i),
    decreases i,
{
    if i > 0 {
        lemma_name_index_skip(s.drop_first(), name, i - 1);
    }
}

} // verus!
