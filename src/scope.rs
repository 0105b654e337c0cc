use vstd::prelude::*;

verus! {

/// How a binding is reached: an argument of the function, a captured upvalue,
/// or a local of the frame.
#[derive(Debug, Clone, Copy, PartialEq, Eq, Structural)]
pub enum BindingType {
    Argument,
    Upvalue,
    Local,
}

/// A name visible in a scope; `index` is its slot among the bindings of its kind.
#[derive(Debug, Clone, Copy, PartialEq, Eq, Structural)]
pub struct Binding {
    pub typ: BindingType,
    pub name: usize,
    pub index: usize,
}

/// The number of bindings of kind `typ` in `b`.
pub open spec fn count_of(b: Seq<Binding>, typ: BindingType) -> nat
    decreases b.len(),
{
    if b.len() == 0 {
        0
    } else {
        count_of(b.drop_last(), typ) + if b.last().typ == typ { 1nat } else { 0nat }
    }
}

/// The position of the last binding named `name` in `b`, if any.
pub open spec fn last_named(b: Seq<Binding>, name: usize) -> Option<int>
    decreases b.len(),
{
    if b.len() == 0 {
        None
    } else if b.last().name == name {
        Some(b.len() - 1)
    } else {
        last_named(b.drop_last(), name)
    }
}

/// One lexical frame of the compiler: its bindings in declaration order and
/// how many of each kind were declared.
pub struct Scope {
    bindings: Vec<Binding>,
    arguments: usize,
    upvalues: usize,
    locals: usize,
}

impl Scope {
    /// The bindings in declaration order.
    pub closed spec fn entries(&self) -> Seq<Binding> {
        self.bindings@
    }

    /// The counters agree with the bindings.
    pub closed spec fn wf(&self) -> bool {
        &&& self.arguments == count_of(self.bindings@, BindingType::Argument)
        &&& self.upvalues == count_of(self.bindings@, BindingType::Upvalue)
        &&& self.locals == count_of(self.bindings@, BindingType::Local)
    }

    /// An empty frame.
    pub fn new() -> (r: Scope)
        ensures
            r.wf(),
            r.entries() == Seq::<Binding>::empty(),
    {
        Scope { bindings: Vec::new(), arguments: 0, upvalues: 0, locals: 0 }
    }

    /// Declares `name` with the next slot of its kind.
    pub fn push_binding(&mut self, typ: BindingType, name: usize)
        requires
            old(self).wf(),
        ensures
            final(self).wf(),
            final(self).entries() == old(self).entries().push(
                Binding { typ, name, index: count_of(old(self).entries(), typ) as usize },
            ),
    {
        let index = match typ {
            BindingType::Argument => self.arguments,
            BindingType::Upvalue => self.upvalues,
            BindingType::Local => self.locals,
        };
        proof {
            lemma_count_bounded(self.bindings@, typ);
        }
        self.bindings.push(Binding { typ, name, index });
        assert(self.bindings@.drop_last() =~= old(self).entries());
        let n = self.bindings.len();
        assert(index < n);
        match typ {
            BindingType::Argument => self.arguments = self.arguments + 1,
            BindingType::Upvalue => self.upvalues = self.upvalues + 1,
            BindingType::Local => self.locals = self.locals + 1,
        }
    }

    /// The number of bindings.
    pub fn bindings_len(&self) -> (r: usize)
        ensures
            r == self.entries().len(),
    {
        self.bindings.len()
    }

    /// The binding at position `i`.
    pub fn binding_at(&self, i: usize) -> (r: Binding)
        requires
            i < self.entries().len(),
        ensures
            r == self.entries()[i as int],
    {
        self.bindings[i]
    }

    /// Whether `name` is declared in this frame.
    pub fn has_binding(&self, name: usize) -> (r: bool)
        ensures
            r == last_named(self.entries(), name) is Some,
    {
        self.get_binding(name).is_some()
    }

    /// The last declaration of `name` in this frame, if any.
    pub fn get_binding(&self, name: usize) -> (r: Option<Binding>)
        ensures
            r == (match last_named(self.entries(), name) {
                Some(i) => Some(self.entries()[i]),
                None => None::<Binding>,
            }),
    {
        let mut i = self.bindings.len();
        assert(self.bindings@.subrange(0, i as int) =~= self.bindings@);
        while i > 0
            invariant
                i <= self.bindings@.len(),
                last_named(self.bindings@, name) == last_named(self.bindings@.subrange(0, i as int), name),
            decreases i,
        {
            let ghost pre = self.bindings@.subrange(0, i as int);
            assert(pre.drop_last() =~= self.bindings@.subrange(0, i - 1));
            if self.bindings[i - 1].name == name {
                return Some(self.bindings[i - 1]);
            }
            i = i - 1;
        }
        None
    }
}

proof fn lemma_count_bounded(b: Seq<Binding>, typ: BindingType)
    ensures
        count_of(b, typ) <= b.len(),
    decreases b.len(),
{
    if b.len() > 0 {
        lemma_count_bounded(b.drop_last(), typ);
    }
}


/// Whether frame `s` declares `name`.
pub open spec fn binds(s: Scope, name: usize) -> bool {
    last_named(s.entries(), name) is Some
}

/// The innermost frame of `scopes` that declares `name`, if any.
pub open spec fn lookup(scopes: Seq<Scope>, name: usize) -> Option<int>
    decreases scopes.len(),
{
    if scopes.len() == 0 {
        None
    } else if binds(scopes.last(), name) {
        Some(scopes.len() - 1)
    } else {
        lookup(scopes.drop_last(), name)
    }
}

/// Every Upvalue binding of a frame names a binding of the frame just outside
/// it, so the outermost frame has none.
pub open spec fn chain_ok(scopes: Seq<Scope>) -> bool {
    forall|j: int, k: int|
        0 <= j < scopes.len() && 0 <= k < scopes[j].entries().len() && (#[trigger] scopes[j].entries()[k]).typ
            == BindingType::Upvalue ==> j >= 1 && binds(scopes[j - 1], scopes[j].entries()[k].name)
}

/// `new` keeps the frames of `old`, each well-formed, with bindings only added.
pub open spec fn extends(old: Seq<Scope>, new: Seq<Scope>) -> bool {
    &&& new.len() == old.len()
    &&& forall|i: int|
        0 <= i < new.len() ==> (#[trigger] new[i]).wf() && old[i].entries().len() <= new[i].entries().len()
            && new[i].entries().subrange(0, old[i].entries().len() as int) == old[i].entries()
}

/// What `last_named` finds carries the name; when it finds nothing no binding does.
pub proof fn lemma_last_named(b: Seq<Binding>, name: usize)
    ensures
        last_named(b, name) matches Some(i) ==> 0 <= i < b.len() && b[i].name == name && forall|j: int|
            i < j < b.len() ==> b[j].name != name,
        last_named(b, name) is None ==> forall|j: int| 0 <= j < b.len() ==> b[j].name != name,
    decreases b.len(),
{
    if b.len() > 0 {
        lemma_last_named(b.drop_last(), name);
        assert forall|j: int| 0 <= j < b.len() - 1 implies b[j] == b.drop_last()[j] by {}
    }
}

/// A name declared in a sequence of bindings stays declared when bindings are added.
pub proof fn lemma_binds_prefix(b: Seq<Binding>, b2: Seq<Binding>, name: usize)
    requires
        b.len() <= b2.len(),
        b2.subrange(0, b.len() as int) == b,
        last_named(b, name) is Some,
    ensures
        last_named(b2, name) is Some,
{
    lemma_last_named(b, name);
    lemma_last_named(b2, name);
    let i = last_named(b, name).unwrap();
    assert(b2[i] == b2.subrange(0, b.len() as int)[i]);
}

/// Frames that extend a chain keep every declaration of it.
pub proof fn lemma_extends_binds(old: Seq<Scope>, new: Seq<Scope>, j: int, name: usize)
    requires
        extends(old, new),
        0 <= j < old.len(),
        binds(old[j], name),
    ensures
        binds(new[j], name),
{
    lemma_binds_prefix(old[j].entries(), new[j].entries(), name);
}

/// `extends` is a preorder.
pub proof fn lemma_extends_trans(a: Seq<Scope>, b: Seq<Scope>, c: Seq<Scope>)
    requires
        extends(a, b),
        extends(b, c),
    ensures
        extends(a, c),
{
    assert forall|i: int| 0 <= i < c.len() implies (#[trigger] c[i]).wf() && a[i].entries().len() <= c[i].entries().len()
        && c[i].entries().subrange(0, a[i].entries().len() as int) == a[i].entries() by {
        assert(c[i].entries().subrange(0, a[i].entries().len() as int) =~= c[i].entries().subrange(
            0,
            b[i].entries().len() as int,
        ).subrange(0, a[i].entries().len() as int));
    }
}

pub proof fn lemma_extends_refl(a: Seq<Scope>)
    requires
        forall|i: int| 0 <= i < a.len() ==> (#[trigger] a[i]).wf(),
    ensures
        extends(a, a),
{
    assert forall|i: int| 0 <= i < a.len() implies (#[trigger] a[i]).entries().subrange(0, a[i].entries().len() as int)
        == a[i].entries() by {
        assert(a[i].entries().subrange(0, a[i].entries().len() as int) =~= a[i].entries());
    }
}

/// Adding binding `b` to frame `j` keeps the chain sound when an Upvalue
/// binding names a binding of the frame outside.
pub proof fn lemma_chain_push(scopes: Seq<Scope>, j: int, s2: Scope, b: Binding)
    requires
        chain_ok(scopes),
        0 <= j < scopes.len(),
        s2.entries() == scopes[j].entries().push(b),
        b.typ == BindingType::Upvalue ==> j >= 1 && binds(scopes[j - 1], b.name),
    ensures
        chain_ok(scopes.update(j, s2)),
{
    let n = scopes.update(j, s2);
    assert forall|j2: int, k: int|
        0 <= j2 < n.len() && 0 <= k < n[j2].entries().len() && (#[trigger] n[j2].entries()[k]).typ
            == BindingType::Upvalue implies j2 >= 1 && binds(n[j2 - 1], n[j2].entries()[k].name) by {
        if j2 == j && k == scopes[j].entries().len() {
        } else {
            assert(n[j2].entries()[k] == scopes[j2].entries()[k]);
            assert(scopes[j2].entries()[k].typ == BindingType::Upvalue);
        }
        if j2 - 1 == j {
            assert(n[j].entries().subrange(0, scopes[j].entries().len() as int) =~= scopes[j].entries());
            lemma_binds_prefix(scopes[j].entries(), n[j].entries(), n[j2].entries()[k].name);
        }
    }
}

/// `lookup` finds the innermost declaring frame.
pub proof fn lemma_lookup(scopes: Seq<Scope>, name: usize)
    ensures
        lookup(scopes, name) matches Some(i) ==> 0 <= i < scopes.len() && binds(scopes[i], name) && forall|j: int|
            i < j < scopes.len() ==> !binds(#[trigger] scopes[j], name),
        lookup(scopes, name) is None ==> forall|j: int| 0 <= j < scopes.len() ==> !binds(#[trigger] scopes[j], name),
    decreases scopes.len(),
{
    if scopes.len() > 0 {
        lemma_lookup(scopes.drop_last(), name);
        assert forall|j: int| 0 <= j < scopes.len() - 1 implies scopes[j] == scopes.drop_last()[j] by {}
    }
}


/// The innermost frame of `scopes` that declares `name`, if any.
pub fn find_frame(scopes: &Vec<Scope>, name: usize) -> (r: Option<usize>)
    ensures
        match lookup(scopes@, name) {
            Some(i) => r == Some(i as usize),
            None => r is None,
        },
{
    let mut i = scopes.len();
    assert(scopes@.subrange(0, i as int) =~= scopes@);
    while i > 0
        invariant
            i <= scopes@.len(),
            lookup(scopes@, name) == lookup(scopes@.subrange(0, i as int), name),
        decreases i,
    {
        let ghost pre = scopes@.subrange(0, i as int);
        assert(pre.drop_last() =~= scopes@.subrange(0, i - 1));
        if scopes[i - 1].has_binding(name) {
            return Some(i - 1);
        }
        i = i - 1;
    }
    None
}

} // verus!
