//! Per-instruction mapping between account names and positional slots.
use vstd::prelude::*;

verus! {

/// The accounts an instruction declares, in order: the slot of an account is its position.
#[derive(Debug)]
pub struct AccountIndexTable {
    pub names: Vec<String>,
}

/// An observed account identifier paired with the name that its slot declares.
#[derive(Debug, PartialEq, Eq)]
pub struct NamedKey {
    pub name: String,
    pub key: [u8; 32],
}

impl AccountIndexTable {
    /// No name is declared twice, so that slots and names correspond one to one.
    pub open spec fn wf(&self) -> bool {
        forall|i: int, j: int|
            0 <= i < self.names@.len() && 0 <= j < self.names@.len() && i != j ==> #[trigger] self.names@[i]@
                != #[trigger] self.names@[j]@
    }

    /// The first slot whose name is `name`.
    pub open spec fn index_of(&self, name: Seq<char>) -> Option<int> {
        if exists|i: int| 0 <= i < self.names@.len() && self.names@[i]@ == name {
            let i = choose|i: int|
                0 <= i < self.names@.len() && self.names@[i]@ == name && forall|j: int|
                    0 <= j < i ==> self.names@[j]@ != name;
            Some(i)
        } else {
            None
        }
    }

    pub fn new(names: Vec<String>) -> (r: Self)
        ensures
            r.names@ == names@,
    {
        AccountIndexTable { names }
    }

    /// Number of declared slots.
    pub fn len(&self) -> (r: usize)
        ensures
            r == self.names@.len(),
    {
        self.names.len()
    }

    /// The name declared at slot `index`, if there is one.
    pub fn get_account_name(&self, index: usize) -> (r: Option<&str>)
        ensures
            index < self.names@.len() ==> (r matches Some(s) && s@ == self.names@[index as int]@),
            index >= self.names@.len() ==> r is None,
    {
        if index < self.names.len() {
            Some(self.names[index].as_str())
        } else {
            None
        }
    }

    /// The slot declared with `name`, if there is one.
    pub fn get_account_index(&self, name: &str) -> (r: Option<usize>)
        ensures
            match self.index_of(name@) {
                Some(i) => r == Some(i as usize),
                None => r is None,
            },
    {
        let wanted = name.to_owned();
        let mut i: usize = 0;
        while i < self.names.len()
            invariant
                i <= self.names@.len(),
                wanted@ == name@,
                forall|j: int| 0 <= j < i ==> self.names@[j]@ != name@,
            decreases self.names@.len() - i,
        {
            if self.names[i] == wanted {
                proof {
                    let k = choose|k: int|
                        0 <= k < self.names@.len() && self.names@[k]@ == name@ && forall|j: int|
                            0 <= j < k ==> self.names@[j]@ != name@;
                    assert(0 <= i < self.names@.len() && self.names@[i as int]@ == name@);
                    if k < i {
                    } else if k > i {
                        assert(self.names@[i as int]@ != name@);
                    }
                }
                return Some(i);
            }
            i = i + 1;
        }
        None
    }

    /// Every declared name with its slot, in slot order.
    pub fn get_all_accounts(&self) -> (r: Vec<(String, usize)>)
        ensures
            r@.len() == self.names@.len(),
            forall|i: int| 0 <= i < r@.len() ==> (#[trigger] r@[i]).0@ == self.names@[i]@ && r@[i].1 == i,
    {
        let mut out: Vec<(String, usize)> = Vec::new();
        let mut i: usize = 0;
        while i < self.names.len()
            invariant
                i <= self.names@.len(),
                out@.len() == i,
                forall|k: int| 0 <= k < i ==> (#[trigger] out@[k]).0@ == self.names@[k]@ && out@[k].1 == k,
            decreases self.names@.len() - i,
        {
            out.push((self.names[i].clone(), i));
            i = i + 1;
        }
        out
    }

    /// Pairs each observed account identifier with its declared slot; positions past the
    /// declared table are ignored.
    pub fn map_accounts(&self, observed: &[[u8; 32]]) -> (r: Vec<NamedKey>)
        ensures
            r@.len() == if observed@.len() < self.names@.len() {
                observed@.len()
            } else {
                self.names@.len()
            },
            forall|i: int| 0 <= i < r@.len() ==> (#[trigger] r@[i]).name@ == self.names@[i]@ && r@[i].key == observed@[i],
    {
        let mut out: Vec<NamedKey> = Vec::new();
        let mut i: usize = 0;
        while i < observed.len() && i < self.names.len()
            invariant
                i <= observed@.len(),
                i <= self.names@.len(),
                out@.len() == i,
                forall|k: int| 0 <= k < i ==> (#[trigger] out@[k]).name@ == self.names@[k]@ && out@[k].key == observed@[k],
            decreases observed@.len() - i,
        {
            out.push(NamedKey { name: self.names[i].clone(), key: observed[i] });
            i = i + 1;
        }
        out
    }
    /// Whether some name is declared at two slots.
    pub fn has_duplicate(&self) -> (r: bool)
        ensures
            r == !self.wf(),
    {
        let n = self.names.len();
        let mut i: usize = 0;
        while i < n
            invariant
                n == self.names@.len(),
                i <= n,
                forall|a: int, b: int| 0 <= a < i && 0 <= b < i && a != b ==> #[trigger] self.names@[a]@ != #[trigger] self.names@[b]@,
            decreases n - i,
        {
            let mut j: usize = 0;
            while j < i
                invariant
                    n == self.names@.len(),
                    j <= i < n,
                    forall|a: int, b: int| 0 <= a < i && 0 <= b < i && a != b ==> #[trigger] self.names@[a]@ != #[trigger] self.names@[b]@,
                    forall|b: int| 0 <= b < j ==> self.names@[b]@ != self.names@[i as int]@,
                decreases i - j,
            {
                if self.names[j] == self.names[i] {
                    assert(self.names@[j as int]@ == self.names@[i as int]@);
                    return true;
                }
                j = j + 1;
            }
            i = i + 1;
        }
        false
    }
}

} // verus!
