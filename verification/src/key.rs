//! The identity of a counter: a namespace and labelled dimensions.

use crate::ct::{UnitChain, UnitChainView};
use crate::filter::CounterValueFilter;
use crate::text::same_text;
use vstd::prelude::*;
use vstd::string::*;

verus! {

/// One labelled dimension of a counter's identity.
#[derive(Copy, Clone, Eq, PartialEq, Hash, Debug, Structural)]
pub enum KeyHead {
    Ifname,
    Parent,
    Handle,
    Kind,
    Name,
}

impl KeyHead {
    /// Whether a column separator is drawn before the column.
    pub open spec fn separates(self) -> bool {
        self == KeyHead::Ifname || self == KeyHead::Parent || self == KeyHead::Name
    }

    /// Whether a value equal to that of the row above is left blank.
    pub open spec fn suppresses_dups(self) -> bool {
        self != KeyHead::Name
    }

    /// The header of the column.
    pub open spec fn head_text(self) -> Seq<char> {
        match self {
            KeyHead::Ifname => "if"@,
            KeyHead::Parent => "par"@,
            KeyHead::Handle => "hnd"@,
            KeyHead::Kind => "kind"@,
            KeyHead::Name => "counter"@,
        }
    }

    /// Whether a column separator is drawn before the column.
    pub fn separate(self) -> (r: bool)
        ensures
            r == self.separates(),
    {
        match self {
            KeyHead::Ifname | KeyHead::Parent | KeyHead::Name => true,
            KeyHead::Handle | KeyHead::Kind => false,
        }
    }

    /// Whether a value equal to that of the row above is left blank.
    pub fn suppress_dups(self) -> (r: bool)
        ensures
            r == self.suppresses_dups(),
    {
        match self {
            KeyHead::Ifname | KeyHead::Parent | KeyHead::Handle | KeyHead::Kind => true,
            KeyHead::Name => false,
        }
    }

    /// The header of the column.
    pub fn column_head(self) -> (r: &'static str)
        ensures
            r@ == self.head_text(),
    {
        match self {
            KeyHead::Ifname => "if",
            KeyHead::Parent => "par",
            KeyHead::Handle => "hnd",
            KeyHead::Kind => "kind",
            KeyHead::Name => "counter",
        }
    }
}

/// The heads in the order of their display columns.
pub open spec fn all_heads_seq() -> Seq<KeyHead> {
    seq![KeyHead::Ifname, KeyHead::Parent, KeyHead::Handle, KeyHead::Kind, KeyHead::Name]
}

/// The heads in the order of their display columns.
pub const ALL_HEADS: [KeyHead; 5] = [
    KeyHead::Ifname,
    KeyHead::Parent,
    KeyHead::Handle,
    KeyHead::Kind,
    KeyHead::Name,
];

/// The heads in the order of their display columns.
pub fn all_heads() -> (r: [KeyHead; 5])
    ensures
        r@ == all_heads_seq(),
{
    let r = ALL_HEADS;
    assert(r@ =~= all_heads_seq());
    r
}

/// What identifies one counter from one polling cycle to the next.
#[derive(Debug)]
pub struct CounterKey {
    /// The namespace the counter comes from.
    pub ctns: &'static str,
    /// The dimensions, each head at most once.
    pub key: Vec<(KeyHead, String)>,
}

/// The mathematical value of a [`CounterKey`].
pub struct CounterKeyView {
    pub ctns: Seq<char>,
    pub key: Seq<(KeyHead, Seq<char>)>,
}

impl View for CounterKey {
    type V = CounterKeyView;

    open spec fn view(&self) -> CounterKeyView {
        CounterKeyView {
            ctns: self.ctns@,
            key: Seq::new(self.key@.len(), |i: int| (self.key@[i].0, self.key@[i].1@)),
        }
    }
}

impl CounterKeyView {
    /// No head occurs twice among the dimensions.
    pub open spec fn wf(self) -> bool {
        forall|i: int, j: int| 0 <= i < j < self.key.len() ==> self.key[i].0 != self.key[j].0
    }

    /// The value of the first dimension `head` from position `from` on, if
    /// there is one.
    pub open spec fn get_from(self, head: KeyHead, from: int) -> Option<Seq<char>>
        decreases self.key.len() - from,
    {
        if from < 0 || from >= self.key.len() {
            None
        } else if self.key[from].0 == head {
            Some(self.key[from].1)
        } else {
            self.get_from(head, from + 1)
        }
    }

    /// The value of the dimension `head`, if the key has one.
    pub open spec fn get(self, head: KeyHead) -> Option<Seq<char>> {
        self.get_from(head, 0)
    }
}

impl CounterKey {
    /// No head occurs twice among the dimensions.
    pub open spec fn wf(&self) -> bool {
        self@.wf()
    }

    /// Whether no head occurs twice among the dimensions.
    pub fn is_wf(&self) -> (r: bool)
        ensures
            r == self.wf(),
    {
        let n = self.key.len();
        let mut j: usize = 0;
        while j < n
            invariant
                n == self.key.len(),
                j <= n,
                forall|a: int, b: int| 0 <= a < b < j ==> self@.key[a].0 != self@.key[b].0,
            decreases n - j,
        {
            let mut i: usize = 0;
            while i < j
                invariant
                    n == self.key.len(),
                    i <= j < n,
                    forall|a: int| 0 <= a < i ==> self@.key[a].0 != self@.key[j as int].0,
                decreases j - i,
            {
                if self.key[i].0 == self.key[j].0 {
                    assert(self@.key[i as int].0 == self@.key[j as int].0);
                    return false;
                }
                i += 1;
            }
            j += 1;
        }
        true
    }

    /// Whether two keys name the same counter: the same namespace and the
    /// same dimensions in the same order.
    pub fn same(&self, other: &CounterKey) -> (r: bool)
        ensures
            r == (self@ == other@),
    {
        if !same_text(self.ctns, other.ctns) {
            return false;
        }
        if self.key.len() != other.key.len() {
            assert(self@.key.len() != other@.key.len());
            return false;
        }
        let mut i: usize = 0;
        while i < self.key.len()
            invariant
                self.key.len() == other.key.len(),
                i <= self.key.len(),
                forall|k: int| 0 <= k < i ==> self@.key[k] == other@.key[k],
            decreases self.key.len() - i,
        {
            if self.key[i].0 != other.key[i].0 || !same_text(
                self.key[i].1.as_str(),
                other.key[i].1.as_str(),
            ) {
                assert(self@.key[i as int] != other@.key[i as int]);
                return false;
            }
            i += 1;
        }
        assert(self@.key =~= other@.key);
        true
    }

    /// The value of the dimension `head`, if the key has one.
    pub fn get(&self, head: KeyHead) -> (r: Option<&String>)
        ensures
            match r {
                Some(s) => self@.get(head) == Some(s@),
                None => self@.get(head) is None,
            },
    {
        let mut i: usize = 0;
        while i < self.key.len()
            invariant
                i <= self.key.len(),
                self@.get(head) == self@.get_from(head, i as int),
            decreases self.key.len() - i,
        {
            if self.key[i].0 == head {
                return Some(&self.key[i].1);
            }
            i += 1;
        }
        None
    }

    /// A copy of the key.
    pub fn duplicate(&self) -> (r: CounterKey)
        ensures
            r@ == self@,
    {
        let mut key: Vec<(KeyHead, String)> = Vec::new();
        let mut i: usize = 0;
        while i < self.key.len()
            invariant
                i <= self.key.len(),
                key.len() == i,
                forall|k: int|
                    0 <= k < i ==> key@[k].0 == self.key@[k].0 && key@[k].1@ == self.key@[k].1@,
            decreases self.key.len() - i,
        {
            key.push((self.key[i].0, self.key[i].1.clone()));
            i += 1;
        }
        let r = CounterKey { ctns: self.ctns, key };
        assert(r@.key =~= self@.key);
        r
    }
}

impl PartialEq for CounterKey {
    fn eq(&self, other: &CounterKey) -> (r: bool) {
        self.same(other)
    }
}

impl Eq for CounterKey {

}

impl vstd::std_specs::cmp::PartialEqSpecImpl for CounterKey {
    open spec fn obeys_eq_spec() -> bool {
        true
    }

    open spec fn eq_spec(&self, other: &CounterKey) -> bool {
        self@ == other@
    }
}

/// One freshly observed sample of a counter.
#[derive(Debug)]
pub struct CounterImm {
    pub key: CounterKey,
    pub value: u64,
    pub unit: UnitChain,
    pub filter: Vec<CounterValueFilter>,
}

/// The mathematical value of a [`CounterImm`].
pub struct CounterImmView {
    pub key: CounterKeyView,
    pub value: u64,
    pub unit: UnitChainView,
    pub filter: Seq<CounterValueFilter>,
}

impl View for CounterImm {
    type V = CounterImmView;

    open spec fn view(&self) -> CounterImmView {
        CounterImmView {
            key: self.key@,
            value: self.value,
            unit: self.unit@,
            filter: self.filter@,
        }
    }
}

impl CounterImm {
    /// A sample is usable when its key names no head twice and its unit
    /// chain has a unit.
    pub open spec fn wf(&self) -> bool {
        self.key.wf() && self.unit.wf()
    }
}

/// The mathematical values of a sequence of samples.
pub open spec fn imm_views(s: Seq<CounterImm>) -> Seq<CounterImmView> {
    Seq::new(s.len(), |i: int| s[i]@)
}

/// Whether every sample of a sequence is usable.
pub open spec fn imms_wf(s: Seq<CounterImm>) -> bool {
    forall|i: int| 0 <= i < s.len() ==> (#[trigger] s[i]).wf()
}

} // verus!
