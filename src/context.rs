use vstd::prelude::*;
use crate::ast::{Value, is_storable};
use crate::interpreter::{EvalErr, EvalRes};

verus! {

/// The bindings of one lexical block, as a map from name to value.
pub type Frame = Map<Seq<char>, Value>;

/// The name that a lookup key stands for: only a `Var`-shaped key names a variable.
pub open spec fn key_name(key: Value) -> Option<Seq<char>> {
    match key {
        Value::Var(s) => Some(s@),
        _ => None,
    }
}

/// The index of the innermost frame that binds `name`, if any.
pub open spec fn frame_of(frames: Seq<Frame>, name: Seq<char>) -> Option<int>
    decreases frames.len(),
{
    if frames.len() == 0 {
        None
    } else if frames.last().contains_key(name) {
        Some(frames.len() - 1)
    } else {
        frame_of(frames.drop_last(), name)
    }
}

/// The value that `name` resolves to, searching innermost to outermost.
pub open spec fn lookup_in(frames: Seq<Frame>, name: Seq<char>) -> Option<Value> {
    match frame_of(frames, name) {
        Some(i) => Some(frames[i][name]),
        None => None,
    }
}

/// The frames after rebinding an existing `name` in the frame where it was found.
pub open spec fn assign_in(frames: Seq<Frame>, name: Seq<char>, v: Value) -> Seq<Frame> {
    match frame_of(frames, name) {
        Some(i) => frames.update(i, frames[i].insert(name, v)),
        None => frames,
    }
}

/// The frames after binding `name` to `v` in the innermost frame.
pub open spec fn declare_in(frames: Seq<Frame>, name: Seq<char>, v: Value) -> Seq<Frame>
    recommends
        frames.len() > 0,
{
    frames.update(frames.len() - 1, frames.last().insert(name, v))
}

/// The frame that `frame_of` picks binds the name, and no frame above it does.
pub proof fn lemma_frame_of_bounds(frames: Seq<Frame>, name: Seq<char>)
    ensures
        match frame_of(frames, name) {
            Some(i) => 0 <= i < frames.len() && frames[i].contains_key(name) && forall|j: int|
                i < j < frames.len() ==> !#[trigger] frames[j].contains_key(name),
            None => forall|j: int| 0 <= j < frames.len() ==> !#[trigger] frames[j].contains_key(name),
        },
    decreases frames.len(),
{
    if frames.len() > 0 && !frames.last().contains_key(name) {
        lemma_frame_of_bounds(frames.drop_last(), name);
        assert forall|j: int| 0 <= j < frames.len() - 1 implies frames[j] == frames.drop_last()[j] by {}
    }
}

/// Searching from index `i` down gives the same answer when no frame at or
/// above `i` binds the name.
pub proof fn lemma_frame_of_prefix(frames: Seq<Frame>, name: Seq<char>, i: int)
    requires
        0 <= i <= frames.len(),
        forall|j: int| i <= j < frames.len() ==> !#[trigger] frames[j].contains_key(name),
    ensures
        frame_of(frames, name) == frame_of(frames.subrange(0, i), name),
    decreases frames.len() - i,
{
    if i < frames.len() {
        assert(frames.drop_last() =~= frames.subrange(0, frames.len() - 1));
        lemma_frame_of_prefix(frames.drop_last(), name, i);
        assert(frames.drop_last().subrange(0, i) =~= frames.subrange(0, i));
    } else {
        assert(frames.subrange(0, i) =~= frames);
    }
}

/// The map that a list of bindings stands for.
pub open spec fn bindings_map(b: Seq<(String, Value)>) -> Map<Seq<char>, Value>
    decreases b.len(),
{
    if b.len() == 0 {
        Map::empty()
    } else {
        bindings_map(b.drop_last()).insert(b.last().0@, b.last().1)
    }
}

/// No name occurs twice in a list of bindings.
pub open spec fn keys_unique(b: Seq<(String, Value)>) -> bool {
    forall|i: int, j: int| 0 <= i < j < b.len() ==> b[i].0@ != b[j].0@
}

proof fn lemma_bindings_lookup(b: Seq<(String, Value)>, k: Seq<char>)
    requires
        keys_unique(b),
    ensures
        bindings_map(b).contains_key(k) <==> exists|j: int| 0 <= j < b.len() && b[j].0@ == k,
        forall|j: int| 0 <= j < b.len() && b[j].0@ == k ==> bindings_map(b)[k] == b[j].1,
    decreases b.len(),
{
    if b.len() > 0 {
        let d = b.drop_last();
        lemma_bindings_lookup(d, k);
        if bindings_map(b).contains_key(k) && b.last().0@ != k {
            let j = choose|j: int| 0 <= j < d.len() && d[j].0@ == k;
            assert(b[j].0@ == k);
        }
        if exists|j: int| 0 <= j < b.len() && b[j].0@ == k {
            let j = choose|j: int| 0 <= j < b.len() && b[j].0@ == k;
            if j < b.len() - 1 {
                assert(d[j].0@ == k);
            }
        }
    }
}

proof fn lemma_bindings_update(b: Seq<(String, Value)>, j: int, v: Value)
    requires
        keys_unique(b),
        0 <= j < b.len(),
    ensures
        keys_unique(b.update(j, (b[j].0, v))),
        bindings_map(b.update(j, (b[j].0, v))) == bindings_map(b).insert(b[j].0@, v),
    decreases b.len(),
{
    let u = b.update(j, (b[j].0, v));
    if j == b.len() - 1 {
        assert(u.drop_last() =~= b.drop_last());
        assert(bindings_map(u) =~= bindings_map(b).insert(b[j].0@, v));
    } else {
        let d = b.drop_last();
        lemma_bindings_update(d, j, v);
        assert(u.drop_last() =~= d.update(j, (d[j].0, v)));
        assert(bindings_map(u) =~= bindings_map(b).insert(b[j].0@, v));
    }
}

/// One lexical block's bindings; names are unique and only numbers and
/// booleans are stored.
pub struct Scope {
    bindings: Vec<(String, Value)>,
}

impl View for Scope {
    type V = Frame;

    closed spec fn view(&self) -> Frame {
        bindings_map(self.bindings@)
    }
}

impl Scope {
    /// Names are unique and every stored value is a number or a boolean.
    pub closed spec fn wf(&self) -> bool {
        &&& keys_unique(self.bindings@)
        &&& forall|i: int| 0 <= i < self.bindings.len() ==> is_storable(#[trigger] self.bindings@[i].1)
    }

    pub fn new() -> (r: Scope)
        ensures
            r.wf(),
            r@ == Frame::empty(),
    {
        Scope { bindings: Vec::new() }
    }

    fn position(&self, name: &String) -> (r: Option<usize>)
        ensures
            match r {
                Some(j) => j < self.bindings.len() && self.bindings@[j as int].0@ == name@,
                None => forall|j: int| 0 <= j < self.bindings.len() ==> self.bindings@[j].0@ != name@,
            },
    {
        let mut j: usize = 0;
        while j < self.bindings.len()
            invariant
                j <= self.bindings.len(),
                forall|k: int| 0 <= k < j ==> self.bindings@[k].0@ != name@,
            decreases self.bindings.len() - j,
        {
            if self.bindings[j].0 == *name {
                return Some(j);
            }
            j += 1;
        }
        None
    }

    /// The value bound to `name` in this scope.
    pub fn get(&self, name: &String) -> (r: Option<Value>)
        requires
            self.wf(),
        ensures
            r == (if self@.contains_key(name@) { Some(self@[name@]) } else { None }),
    {
        proof {
            lemma_bindings_lookup(self.bindings@, name@);
        }
        match self.position(name) {
            Some(j) => Some(crate::ast::copy_value(&self.bindings[j].1)),
            None => None,
        }
    }

    /// Binds `name` to `v`, overwriting an earlier binding of the name.
    pub fn set(&mut self, name: &String, v: Value)
        requires
            old(self).wf(),
            is_storable(v),
        ensures
            final(self).wf(),
            final(self)@ == old(self)@.insert(name@, v),
    {
        match self.position(name) {
            Some(j) => {
                proof {
                    lemma_bindings_update(self.bindings@, j as int, v);
                }
                let key = self.bindings[j].0.clone();
                self.bindings.set(j, (key, v));
                assert(self.bindings@ == old(self).bindings@.update(
                    j as int,
                    (old(self).bindings@[j as int].0, v),
                ));
            },
            None => {
                self.bindings.push((name.clone(), v));
                assert(self.bindings@.drop_last() == old(self).bindings@);
            },
        }
    }
}

/// A stack of scopes, innermost last.
pub struct Context {
    scopes: Vec<Scope>,
}

impl View for Context {
    type V = Seq<Frame>;

    closed spec fn view(&self) -> Seq<Frame> {
        self.scopes@.map_values(|s: Scope| s@)
    }
}

impl Context {
    /// Every scope on the stack is well formed.
    pub closed spec fn wf(&self) -> bool {
        forall|i: int| 0 <= i < self.scopes.len() ==> (#[trigger] self.scopes@[i]).wf()
    }

    /// A context with no scope at all.
    pub fn new() -> (r: Context)
        ensures
            r.wf(),
            r@ == Seq::<Frame>::empty(),
    {
        let r = Context { scopes: Vec::new() };
        assert(r@ =~= Seq::<Frame>::empty());
        r
    }

    /// The number of scopes on the stack.
    pub fn depth(&self) -> (r: usize)
        ensures
            r == self@.len(),
    {
        self.scopes.len()
    }

    /// The index of the innermost scope that binds `name`.
    fn scope_of(&self, name: &String) -> (r: Option<usize>)
        requires
            self.wf(),
        ensures
            r == (match frame_of(self@, name@) {
                Some(i) => Some(i as usize),
                None => None::<usize>,
            }),
            r matches Some(i) ==> i < self.scopes.len(),
    {
        let mut i: usize = self.scopes.len();
        while i > 0
            invariant
                i <= self.scopes.len(),
                self.wf(),
                forall|j: int| i <= j < self@.len() ==> !#[trigger] self@[j].contains_key(name@),
            decreases i,
        {
            if self.scopes[i - 1].get(name).is_some() {
                proof {
                    lemma_frame_of_prefix(self@, name@, i as int);
                    assert(self@.subrange(0, i as int).last() == self@[i - 1]);
                }
                return Some(i - 1);
            }
            i -= 1;
        }
        proof {
            lemma_frame_of_prefix(self@, name@, 0);
        }
        None
    }
}

/// Declaration, lookup and update of variables over a stack of scopes.
pub trait ContextMethods: Sized {
    /// The stack of frames, innermost last.
    spec fn frames(&self) -> Seq<Frame>;

    /// The representation invariant that every method keeps.
    spec fn well_formed(&self) -> bool;

    /// Rebinds an existing variable in the innermost scope that binds it.
    fn update_var(&mut self, key: &Value, val: &Value) -> (r: EvalRes<Value>)
        requires
            old(self).well_formed(),
            is_storable(*val),
        ensures
            final(self).well_formed(),
            final(self).frames().len() == old(self).frames().len(),
            match key_name(*key) {
                Some(n) => match frame_of(old(self).frames(), n) {
                    Some(_) => r == Ok::<Value, EvalErr>(*val) && final(self).frames() == assign_in(
                        old(self).frames(),
                        n,
                        *val,
                    ),
                    None => r == Err::<Value, EvalErr>(EvalErr::NotFound) && final(self).frames()
                        == old(self).frames(),
                },
                None => r == Err::<Value, EvalErr>(EvalErr::NotFound) && final(self).frames()
                    == old(self).frames(),
            },
    ;

    /// Releases the innermost scope; nothing happens on an empty stack.
    fn drop_current_scope(&mut self)
        requires
            old(self).well_formed(),
        ensures
            final(self).well_formed(),
            final(self).frames() == (if old(self).frames().len() > 0 {
                old(self).frames().drop_last()
            } else {
                old(self).frames()
            }),
    ;

    /// The value of a variable, searching innermost to outermost.
    fn get_val(&mut self, key: &Value) -> (r: EvalRes<Value>)
        requires
            old(self).well_formed(),
        ensures
            final(self).well_formed(),
            final(self).frames() == old(self).frames(),
            r == (match key_name(*key) {
                Some(n) => match lookup_in(old(self).frames(), n) {
                    Some(v) => Ok(v),
                    None => Err(EvalErr::NotFound),
                },
                None => Err::<Value, EvalErr>(EvalErr::NotFound),
            }),
    ;

    /// Binds a variable in the innermost scope, overwriting a binding of the
    /// same name there.
    fn insert_to_current_scope(&mut self, key: &Value, val: &Value) -> (r: EvalRes<()>)
        requires
            old(self).well_formed(),
            is_storable(*val),
        ensures
            final(self).well_formed(),
            final(self).frames().len() == old(self).frames().len(),
            old(self).frames().len() == 0 ==> r == Err::<(), EvalErr>(EvalErr::InternalError)
                && final(self).frames() == old(self).frames(),
            old(self).frames().len() > 0 ==> match key_name(*key) {
                Some(n) => r == Ok::<(), EvalErr>(()) && final(self).frames() == declare_in(
                    old(self).frames(),
                    n,
                    *val,
                ),
                None => r == Err::<(), EvalErr>(EvalErr::TypeMismatch) && final(self).frames()
                    == old(self).frames(),
            },
    ;

    /// Enters a new, empty innermost scope.
    fn new_scope(&mut self)
        requires
            old(self).well_formed(),
        ensures
            final(self).well_formed(),
            final(self).frames() == old(self).frames().push(Frame::empty()),
    ;
}

impl ContextMethods for Context {
    open spec fn frames(&self) -> Seq<Frame> {
        self@
    }

    open spec fn well_formed(&self) -> bool {
        self.wf()
    }

    fn update_var(&mut self, key: &Value, val: &Value) -> (r: EvalRes<Value>) {
        match key {
            Value::Var(name) => match self.scope_of(name) {
                Some(i) => {
                    proof {
                        lemma_frame_of_bounds(self@, name@);
                    }
                    let v = crate::ast::copy_value(val);
                    self.scopes[i].set(name, v);
                    assert(self@ =~= assign_in(old(self)@, name@, *val));
                    Ok(crate::ast::copy_value(val))
                },
                None => Err(EvalErr::NotFound),
            },
            _ => Err(EvalErr::NotFound),
        }
    }

    fn drop_current_scope(&mut self) {
        if self.scopes.len() > 0 {
            self.scopes.pop();
            assert(self@ =~= old(self)@.drop_last());
        }
    }

    fn get_val(&mut self, key: &Value) -> (r: EvalRes<Value>) {
        match key {
            Value::Var(name) => match self.scope_of(name) {
                Some(i) => {
                    proof {
                        lemma_frame_of_bounds(self@, name@);
                    }
                    match self.scopes[i].get(name) {
                        Some(v) => Ok(v),
                        None => Err(EvalErr::NotFound),
                    }
                },
                None => Err(EvalErr::NotFound),
            },
            _ => Err(EvalErr::NotFound),
        }
    }

    fn insert_to_current_scope(&mut self, key: &Value, val: &Value) -> (r: EvalRes<()>) {
        let n = self.scopes.len();
        if n == 0 {
            return Err(EvalErr::InternalError);
        }
        match key {
            Value::Var(name) => {
                let v = crate::ast::copy_value(val);
                self.scopes[n - 1].set(name, v);
                assert(self@ =~= declare_in(old(self)@, name@, *val));
                Ok(())
            },
            _ => Err(EvalErr::TypeMismatch),
        }
    }

    fn new_scope(&mut self) {
        self.scopes.push(Scope::new());
        assert(self@ =~= old(self)@.push(Frame::empty()));
    }
}

} // verus!
