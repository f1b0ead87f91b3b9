//! The variable store: the bindings that assignments have made.

use crate::number::CalcNumber;
use crate::text::{decimal, decimal_text};
use crate::tree::Expr;
use vstd::prelude::*;

verus! {

/// What a binding holds, as plain values.
pub struct Binding {
    /// The variable's name.
    pub name: Seq<char>,
    /// The expression that the variable was bound to.
    pub tree: Expr,
    /// The text that the expression was read from.
    pub source_text: Seq<char>,
    /// The value that the expression had when the binding was made.
    pub value: CalcNumber,
}

/// Whether `store` has a binding for `name`.
pub open spec fn is_bound(store: Seq<Binding>, name: Seq<char>) -> bool {
    exists|i: int| 0 <= i < store.len() && (#[trigger] store[i]).name == name
}

/// The binding of `name` in `store`, if there is one.
pub open spec fn lookup(store: Seq<Binding>, name: Seq<char>) -> Option<Binding> {
    if is_bound(store, name) {
        Some(store[choose|i: int| 0 <= i < store.len() && (#[trigger] store[i]).name == name])
    } else {
        None
    }
}

/// The store after `b` is bound: `b` takes the place of the binding of the
/// same name, or comes last where the name is new.
pub open spec fn rebind(store: Seq<Binding>, b: Binding) -> Seq<Binding> {
    if is_bound(store, b.name) {
        store.update(
            choose|i: int| 0 <= i < store.len() && (#[trigger] store[i]).name == b.name,
            b,
        )
    } else {
        store.push(b)
    }
}

/// A store is well formed when no name is bound twice and every binding
/// records the value of its own tree.
pub open spec fn store_wf(store: Seq<Binding>) -> bool {
    &&& forall|i: int, j: int|
        0 <= i < j < store.len() ==> (#[trigger] store[i]).name != (#[trigger] store[j]).name
    &&& forall|i: int|
        0 <= i < store.len() ==> (#[trigger] store[i]).tree.value() == Ok::<CalcNumber, crate::error::CalcError>(
            store[i].value,
        )
}

/// The line that lists a binding: name, source text and value.
pub open spec fn binding_line(b: Binding) -> Seq<char> {
    b.name + ": "@ + b.source_text + " => "@ + decimal(b.value.0 as nat)
}

/// A variable with the expression it stands for.
pub struct VariableBinding {
    name: String,
    tree: Expr,
    source_text: String,
    value: CalcNumber,
}

impl View for VariableBinding {
    type V = Binding;

    closed spec fn view(&self) -> Binding {
        Binding {
            name: self.name@,
            tree: self.tree,
            source_text: self.source_text@,
            value: self.value,
        }
    }
}

/// The bindings made so far, in the order in which their names first appeared.
pub struct VarStore {
    bindings: Vec<VariableBinding>,
}

impl View for VarStore {
    type V = Seq<Binding>;

    closed spec fn view(&self) -> Seq<Binding> {
        Seq::new(self.bindings@.len(), |i: int| self.bindings@[i]@)
    }
}

impl VarStore {
    /// Whether the store is well formed; every store that this library hands
    /// out is.
    pub open spec fn wf(&self) -> bool {
        store_wf(self@)
    }

    /// A store without bindings.
    pub fn new() -> (s: VarStore)
        ensures
            s@ == Seq::<Binding>::empty(),
            s.wf(),
    {
        let s = VarStore { bindings: Vec::new() };
        assert(s@ =~= Seq::<Binding>::empty());
        s
    }

    /// The number of bindings.
    pub fn len(&self) -> (n: usize)
        ensures
            n == self@.len(),
    {
        self.bindings.len()
    }

    /// Where `name` is bound, if it is.
    fn find(&self, name: &str) -> (r: Option<usize>)
        ensures
            match r {
                Some(i) => i < self@.len() && self@[i as int].name == name@,
                None => !is_bound(self@, name@),
            },
    {
        let key: String = name.to_owned();
        let mut i: usize = 0;
        while i < self.bindings.len()
            invariant
                i <= self.bindings@.len(),
                key@ == name@,
                forall|k: int| 0 <= k < i ==> (#[trigger] self@[k]).name != name@,
            decreases self.bindings@.len() - i,
        {
            if self.bindings[i].name == key {
                return Some(i);
            }
            i = i + 1;
        }
        None
    }

    /// A copy of the tree that `name` is bound to.
    pub fn get_expr(&self, name: &str) -> (r: Option<Expr>)
        requires
            self.wf(),
        ensures
            r == match lookup(self@, name@) {
                Some(b) => Some(b.tree),
                None => None,
            },
    {
        match self.find(name) {
            Some(i) => Some(self.bindings[i].tree.clone()),
            None => None,
        }
    }

    /// The value that `name` had when it was bound.
    pub fn get_result(&self, name: &str) -> (r: Option<CalcNumber>)
        requires
            self.wf(),
        ensures
            r == match lookup(self@, name@) {
                Some(b) => Some(b.value),
                None => None,
            },
    {
        match self.find(name) {
            Some(i) => Some(self.bindings[i].value),
            None => None,
        }
    }

    /// Binds `name` to `tree`, in place of an earlier binding of `name` if
    /// there is one.
    pub(crate) fn bind(&mut self, name: String, tree: Expr, source_text: String, value: CalcNumber)
        requires
            old(self).wf(),
            tree.value() == Ok::<CalcNumber, crate::error::CalcError>(value),
        ensures
            final(self).wf(),
            final(self)@ == rebind(
                old(self)@,
                Binding { name: name@, tree, source_text: source_text@, value },
            ),
    {
        let ghost b = Binding { name: name@, tree, source_text: source_text@, value };
        let found = self.find(name.as_str());
        let entry = VariableBinding { name, tree, source_text, value };
        match found {
            Some(i) => {
                self.bindings.set(i, entry);
                assert(self@ =~= old(self)@.update(i as int, b));
            },
            None => {
                self.bindings.push(entry);
                assert(self@ =~= old(self)@.push(b));
            },
        }
    }
}

/// Lists the bindings of `vars`, one line each: the name, a colon, the
/// source text, an arrow and the value in decimal notation.
pub fn get_vars(vars: &VarStore) -> (lines: Vec<String>)
    ensures
        lines@.len() == vars@.len(),
        forall|i: int| 0 <= i < lines@.len() ==> (#[trigger] lines@[i])@ == binding_line(vars@[i]),
{
    let mut lines: Vec<String> = Vec::new();
    let mut i: usize = 0;
    while i < vars.bindings.len()
        invariant
            i <= vars.bindings@.len(),
            lines@.len() == i,
            forall|k: int| 0 <= k < i ==> (#[trigger] lines@[k])@ == binding_line(vars@[k]),
        decreases vars.bindings@.len() - i,
    {
        let b = &vars.bindings[i];
        let line = b.name.clone().concat(": ").concat(b.source_text.as_str()).concat(" => ").concat(
            decimal_text(b.value.0).as_str(),
        );
        lines.push(line);
        i = i + 1;
    }
    lines
}


/// In a well-formed store a name leads to the one binding that holds it.
pub proof fn lemma_lookup_finds(store: Seq<Binding>, i: int)
    requires
        store_wf(store),
        0 <= i < store.len(),
    ensures
        lookup(store, store[i].name) == Some(store[i]),
{
    let name = store[i].name;
    assert(is_bound(store, name));
    let k = choose|k: int| 0 <= k < store.len() && (#[trigger] store[k]).name == name;
    assert(k == i);
}

/// Binding keeps a store well formed, makes the new binding the one that
/// its name leads to, and leaves the binding of every other name as it was.
pub proof fn lemma_rebind(store: Seq<Binding>, b: Binding)
    requires
        store_wf(store),
        b.tree.value() == Ok::<CalcNumber, crate::error::CalcError>(b.value),
    ensures
        store_wf(rebind(store, b)),
        lookup(rebind(store, b), b.name) == Some(b),
        forall|other: Seq<char>|
            other != b.name ==> #[trigger] lookup(rebind(store, b), other) == lookup(store, other),
{
    let after = rebind(store, b);
    let at: int = if is_bound(store, b.name) {
        choose|i: int| 0 <= i < store.len() && (#[trigger] store[i]).name == b.name
    } else {
        store.len() as int
    };
    assert(after.len() > at && after[at] == b);
    assert(forall|i: int| 0 <= i < store.len() && i != at ==> after[i] == store[i]);
    assert(store_wf(after));
    lemma_lookup_finds(after, at);
    assert forall|other: Seq<char>| other != b.name implies #[trigger] lookup(after, other)
        == lookup(store, other) by {
        if is_bound(store, other) {
            let j = choose|j: int| 0 <= j < store.len() && (#[trigger] store[j]).name == other;
            assert(j != at);
            assert(after[j] == store[j]);
            lemma_lookup_finds(after, j);
            lemma_lookup_finds(store, j);
        } else {
            if is_bound(after, other) {
                let j = choose|j: int| 0 <= j < after.len() && (#[trigger] after[j]).name == other;
                assert(j != at);
                assert(store[j].name == other);
            }
        }
    }
}

} // verus!
