//! Bindings of names to values, and the chain of scopes.
use crate::error::BccError;
use crate::text::{equal, owned};
use crate::value::{entry_views, DictEntry, Value, ValueView};
use vstd::prelude::*;

verus! {

/// The bindings of one scope, or the entries of a dictionary: names with
/// their values, in the order in which the names first appeared.
pub type Bindings = Seq<(Seq<char>, ValueView)>;

/// The index of the first binding of `name` at or after `from`.
pub open spec fn position(bindings: Bindings, name: Seq<char>, from: int) -> Option<int>
    decreases bindings.len() - from,
{
    if from < 0 || from >= bindings.len() {
        None
    } else if bindings[from].0 == name {
        Some(from)
    } else {
        position(bindings, name, from + 1)
    }
}

/// What `name` is bound to, if it is bound.
pub open spec fn bound(bindings: Bindings, name: Seq<char>) -> Option<ValueView> {
    match position(bindings, name, 0) {
        Some(i) => Some(bindings[i].1),
        None => None,
    }
}

/// The bindings after `name` is bound to `value`: an existing binding is
/// replaced in place, a new one is added at the end.
pub open spec fn put(bindings: Bindings, name: Seq<char>, value: ValueView) -> Bindings {
    match position(bindings, name, 0) {
        Some(i) => bindings.update(i, (name, value)),
        None => bindings.push((name, value)),
    }
}

/// A position that is found holds the name, and lies at or after the start
/// of the search; where none is found, no binding from there on has the name.
pub proof fn lemma_position_bounds(bindings: Bindings, name: Seq<char>, from: int)
    requires
        0 <= from,
    ensures
        position(bindings, name, from) matches Some(i) ==> from <= i < bindings.len()
            && bindings[i].0 == name,
        position(bindings, name, from) is None ==> forall|k: int|
            from <= k < bindings.len() ==> (#[trigger] bindings[k]).0 != name,
    decreases bindings.len() - from,
{
    if from < bindings.len() && bindings[from].0 != name {
        lemma_position_bounds(bindings, name, from + 1);
    }
}

/// Binding a name keeps the names pairwise different.
pub proof fn lemma_put_keeps_names_unique(bindings: Bindings, name: Seq<char>, value: ValueView)
    requires
        crate::value::unique_keys(bindings),
    ensures
        crate::value::unique_keys(put(bindings, name, value)),
        bound(put(bindings, name, value), name) == Some(value),
{
    lemma_position_bounds(bindings, name, 0);
    let after = put(bindings, name, value);
    lemma_position_bounds(after, name, 0);
    match position(bindings, name, 0) {
        Some(i) => {
            assert forall|a: int, b: int| 0 <= a < b < after.len() implies (#[trigger] after[a]).0
                != (#[trigger] after[b]).0 by {
                assert(bindings[a].0 != bindings[b].0);
            }
            assert(after[i].0 == name);
            let found = position(after, name, 0);
            assert(found is Some);
            if found->0 != i {
                assert(after[found->0].0 == after[i].0);
            }
        },
        None => {
            assert forall|a: int, b: int| 0 <= a < b < after.len() implies (#[trigger] after[a]).0
                != (#[trigger] after[b]).0 by {
                if b < bindings.len() {
                    assert(bindings[a].0 != bindings[b].0);
                } else {
                    assert(bindings[a].0 != name);
                }
            }
            let last = after.len() - 1;
            assert(after[last].0 == name);
            let found = position(after, name, 0);
            assert(found is Some);
            if found->0 != last {
                assert(bindings[found->0].0 != name);
            }
        },
    }
}

/// The index of the first entry with the given key, if any.
pub fn find(entries: &Vec<DictEntry>, name: &str) -> (found: Option<usize>)
    ensures
        match found {
            Some(i) => position(entry_views(entries@), name@, 0) == Some(i as int) && i
                < entries.len(),
            None => position(entry_views(entries@), name@, 0) is None,
        },
{
    let mut i: usize = 0;
    while i < entries.len()
        invariant
            i <= entries.len(),
            position(entry_views(entries@), name@, 0) == position(
                entry_views(entries@),
                name@,
                i as int,
            ),
        decreases entries.len() - i,
    {
        if equal(entries[i].key.as_str(), name) {
            return Some(i);
        }
        i += 1;
    }
    None
}

/// Binds `name` to `value` in the entries.
pub fn insert(entries: &mut Vec<DictEntry>, name: String, value: Value)
    ensures
        entry_views(final(entries)@) == put(entry_views(old(entries)@), name@, value@),
{
    let ghost before = entries@;
    match find(entries, name.as_str()) {
        Some(i) => {
            entries.set(i, DictEntry { key: name, value });
            assert(entry_views(entries@) =~= entry_views(before).update(
                i as int,
                (name@, value@),
            ));
        },
        None => {
            entries.push(DictEntry { key: name, value });
            assert(entry_views(entries@) =~= entry_views(before).push((name@, value@)));
        },
    }
}

// ---------------------------------------------------------------------------
// Scopes
// ---------------------------------------------------------------------------
/// The scopes of an environment, outermost first.
pub type Scopes = Seq<Bindings>;

/// What `name` is bound to in the innermost scope that binds it.
pub open spec fn lookup(scopes: Scopes, name: Seq<char>) -> Option<ValueView>
    decreases scopes.len(),
{
    if scopes.len() == 0 {
        None
    } else {
        match bound(scopes.last(), name) {
            Some(v) => Some(v),
            None => lookup(scopes.drop_last(), name),
        }
    }
}

/// The innermost of the first `depth` scopes that binds `name`.
pub open spec fn owner(scopes: Scopes, name: Seq<char>, depth: int) -> Option<int>
    decreases depth,
{
    if depth <= 0 {
        None
    } else if position(scopes[depth - 1], name, 0) is Some {
        Some(depth - 1)
    } else {
        owner(scopes, name, depth - 1)
    }
}

/// The scopes after an assignment to `name`: the innermost scope that
/// binds the name gets the new value; if none does, the innermost scope
/// gets a new binding.
pub open spec fn assigned(scopes: Scopes, name: Seq<char>, value: ValueView) -> Scopes {
    if scopes.len() == 0 {
        seq![put(Seq::empty(), name, value)]
    } else {
        match owner(scopes, name, scopes.len() as int) {
            Some(d) => scopes.update(d, put(scopes[d], name, value)),
            None => scopes.update(scopes.len() - 1, put(scopes.last(), name, value)),
        }
    }
}

/// The contents of a sequence of scopes.
pub open spec fn scope_views(scopes: Seq<Vec<DictEntry>>) -> Scopes {
    Seq::new(scopes.len(), |i: int| entry_views(scopes[i]@))
}

/// A chain of scopes: each maps names to values, and each but the
/// outermost is enclosed by the one before it.
pub struct Environment {
    scopes: Vec<Vec<DictEntry>>,
}

impl View for Environment {
    type V = Scopes;

    closed spec fn view(&self) -> Scopes {
        scope_views(self.scopes@)
    }
}

impl Environment {
    /// An environment with one empty scope.
    pub fn new() -> (env: Environment)
        ensures
            env@ == seq![Seq::<(Seq<char>, ValueView)>::empty()],
    {
        let mut scopes: Vec<Vec<DictEntry>> = Vec::new();
        scopes.push(Vec::new());
        assert(scope_views(scopes@) =~= seq![Seq::<(Seq<char>, ValueView)>::empty()]) by {
            assert(entry_views(scopes@[0]@) =~= Seq::empty());
        }
        Environment { scopes }
    }

    /// The environment with a new empty scope inside the given one.
    pub fn with_enclosing(enclosing: Environment) -> (env: Environment)
        ensures
            env@ == enclosing@.push(Seq::empty()),
    {
        let mut scopes = enclosing.scopes;
        let ghost before = scopes@;
        scopes.push(Vec::new());
        assert(scope_views(scopes@) =~= scope_views(before).push(Seq::empty())) by {
            assert(entry_views(scopes@.last()@) =~= Seq::empty());
        }
        Environment { scopes }
    }

    /// Opens a new innermost scope.
    pub fn push_scope(&mut self)
        ensures
            final(self)@ == old(self)@.push(Seq::empty()),
    {
        let ghost before = self.scopes@;
        self.scopes.push(Vec::new());
        assert(scope_views(self.scopes@) =~= scope_views(before).push(Seq::empty())) by {
            assert(entry_views(self.scopes@.last()@) =~= Seq::empty());
        }
    }

    /// Closes the innermost scope, unless it is the only one.
    pub fn pop_scope(&mut self)
        ensures
            final(self)@ == if old(self)@.len() > 1 {
                old(self)@.drop_last()
            } else {
                old(self)@
            },
    {
        if self.scopes.len() > 1 {
            let ghost before = self.scopes@;
            self.scopes.pop();
            assert(scope_views(self.scopes@) =~= scope_views(before).drop_last());
        }
    }

    /// The number of scopes.
    pub fn depth(&self) -> (n: usize)
        ensures
            n == self@.len(),
    {
        self.scopes.len()
    }

    /// A copy of what `name` is bound to in the innermost scope that
    /// binds it.
    pub fn get(&self, name: &str) -> (value: Option<Value>)
        ensures
            match value {
                Some(v) => lookup(self@, name@) == Some(v@),
                None => lookup(self@, name@) is None,
            },
    {
        let mut depth: usize = self.scopes.len();
        assert(self@.subrange(0, depth as int) =~= self@);
        while depth > 0
            invariant
                depth <= self.scopes.len(),
                lookup(self@, name@) == lookup(self@.subrange(0, depth as int), name@),
            decreases depth,
        {
            let ghost outer = self@.subrange(0, depth as int);
            assert(outer.last() == entry_views(self.scopes@[depth - 1]@));
            assert(outer.drop_last() =~= self@.subrange(0, depth - 1));
            match find(&self.scopes[depth - 1], name) {
                Some(i) => {
                    proof {
                        crate::value::lemma_entry_view(self.scopes@[depth - 1]@, i as int);
                    }
                    return Some(self.scopes[depth - 1][i].value.clone());
                },
                None => {},
            }
            depth -= 1;
        }
        None
    }

    /// Assigns to `name`: in the innermost scope that binds it, or, if
    /// none does, as a new binding of the innermost scope.
    pub fn assign(&mut self, name: &str, value: Value) -> (result: Result<(), BccError>)
        ensures
            result is Ok,
            final(self)@ == assigned(old(self)@, name@, value@),
    {
        if self.scopes.len() == 0 {
            let mut scope: Vec<DictEntry> = Vec::new();
            assert(entry_views(scope@) =~= Seq::empty());
            let ghost value_view = value@;
            insert(&mut scope, owned(name), value);
            self.scopes.push(scope);
            assert(scope_views(self.scopes@) =~= seq![put(Seq::empty(), name@, value_view)]);
            return Ok(());
        }
        let ghost before = self.scopes@;
        let mut depth: usize = self.scopes.len();
        let mut target: usize = self.scopes.len() - 1;
        let mut found = false;
        while depth > 0 && !found
            invariant
                depth <= self.scopes.len(),
                self.scopes@ == before,
                before.len() > 0,
                !found ==> owner(self@, name@, self@.len() as int) == owner(
                    self@,
                    name@,
                    depth as int,
                ),
                !found ==> target == self.scopes.len() - 1,
                found ==> owner(self@, name@, self@.len() as int) == Some(target as int) && target
                    < self.scopes.len(),
            decreases depth, !found as int,
        {
            match find(&self.scopes[depth - 1], name) {
                Some(_) => {
                    target = depth - 1;
                    found = true;
                },
                None => {
                    depth -= 1;
                },
            }
        }
        let owned_name = owned(name);
        let ghost value_view = value@;
        let mut scope: Vec<DictEntry> = Vec::new();
        core::mem::swap(&mut scope, &mut self.scopes[target]);
        insert(&mut scope, owned_name, value);
        self.scopes.set(target, scope);
        assert(scope_views(self.scopes@) =~= scope_views(before).update(
            target as int,
            put(entry_views(before[target as int]@), name@, value_view),
        ));
        Ok(())
    }
}

} // verus!
