use vstd::prelude::*;
use crate::vari::VariTypes;

verus! {

/// One scope: its bindings, in the order they were made, and the scope that encloses it.
pub struct Frame {
    pub names: Vec<String>,
    pub values: Vec<VariTypes>,
    pub enclosing: Option<usize>,
}

/// A scope as a mathematical value.
pub struct FrameView {
    pub names: Seq<Seq<char>>,
    pub values: Seq<VariTypes>,
    pub enclosing: Option<usize>,
}

impl View for Frame {
    type V = FrameView;

    open spec fn view(&self) -> FrameView {
        FrameView {
            names: self.names@.map_values(|s: String| s@),
            values: self.values@,
            enclosing: self.enclosing,
        }
    }
}

/// The store of all scopes. A scope is named by its index (a handle); scopes are never
/// removed, so a closure's handle stays valid, and every reference to a scope sees its
/// changes.
pub struct Environment {
    pub frames: Vec<Frame>,
}

impl View for Environment {
    type V = Seq<FrameView>;

    open spec fn view(&self) -> Seq<FrameView> {
        self.frames@.map_values(|f: Frame| f@)
    }
}

/// The last slot of `names` that holds `k`.
pub open spec fn find_name(names: Seq<Seq<char>>, k: Seq<char>) -> Option<int>
    decreases names.len(),
{
    if names.len() == 0 {
        None
    } else if names.last() == k {
        Some(names.len() - 1)
    } else {
        find_name(names.drop_last(), k)
    }
}

/// Every scope lists as many values as names, and encloses only scopes made before it.
pub open spec fn frames_wf(fs: Seq<FrameView>) -> bool {
    forall|i: int| 0 <= i < fs.len() ==> {
        &&& #[trigger] fs[i].names.len() == fs[i].values.len()
        &&& (fs[i].enclosing matches Some(p) ==> p < i)
    }
}

/// The scope and slot that `k` denotes when looked up from scope `h`: the innermost scope on
/// the enclosing chain that binds it.
pub open spec fn resolve(fs: Seq<FrameView>, h: int, k: Seq<char>) -> Option<(int, int)>
    decreases h,
{
    if h < 0 || h >= fs.len() {
        None
    } else {
        match find_name(fs[h].names, k) {
            Some(i) => Some((h, i)),
            None => match fs[h].enclosing {
                Some(p) => if p < h { resolve(fs, p as int, k) } else { None },
                None => None,
            },
        }
    }
}

/// The value of `k` seen from scope `h`.
pub open spec fn lookup(fs: Seq<FrameView>, h: int, k: Seq<char>) -> Option<VariTypes> {
    match resolve(fs, h, k) {
        Some((f, i)) => Some(fs[f].values[i]),
        None => None,
    }
}

/// Scope `h` with `k` bound to `v`: an existing binding in `h` itself is overwritten,
/// otherwise one is added.
pub open spec fn define_in(fs: Seq<FrameView>, h: int, k: Seq<char>, v: VariTypes) -> Seq<FrameView> {
    let f = fs[h];
    match find_name(f.names, k) {
        Some(i) => fs.update(h, FrameView { values: f.values.update(i, v), ..f }),
        None => fs.update(h, FrameView { names: f.names.push(k), values: f.values.push(v), ..f }),
    }
}

/// The store after writing `v` into slot `i` of scope `f`.
pub open spec fn write_slot(fs: Seq<FrameView>, f: int, i: int, v: VariTypes) -> Seq<FrameView> {
    fs.update(f, FrameView { values: fs[f].values.update(i, v), ..fs[f] })
}

/// Assigning `k` from scope `h`: the innermost binding on the chain is overwritten; `None`
/// when there is none.
pub open spec fn assign_in(fs: Seq<FrameView>, h: int, k: Seq<char>, v: VariTypes) -> Option<Seq<FrameView>> {
    match resolve(fs, h, k) {
        Some((f, i)) => Some(write_slot(fs, f, i, v)),
        None => None,
    }
}

proof fn lemma_find_name_bound(names: Seq<Seq<char>>, k: Seq<char>)
    ensures
        find_name(names, k) matches Some(i) ==> 0 <= i < names.len() && names[i] == k,
    decreases names.len(),
{
    if names.len() > 0 && names.last() != k {
        lemma_find_name_bound(names.drop_last(), k);
    }
}

pub proof fn lemma_resolve_bound(fs: Seq<FrameView>, h: int, k: Seq<char>)
    requires
        frames_wf(fs),
    ensures
        resolve(fs, h, k) matches Some((f, i)) ==> 0 <= f <= h < fs.len() && 0 <= i < fs[f].values.len() && fs[f].names[i] == k,
    decreases h,
{
    if 0 <= h < fs.len() {
        lemma_find_name_bound(fs[h].names, k);
        assert(fs[h].names.len() == fs[h].values.len());
        if find_name(fs[h].names, k) is None {
            if let Some(p) = fs[h].enclosing {
                if p < h {
                    lemma_resolve_bound(fs, p as int, k);
                }
            }
        }
    }
}

/// Finds the last slot of `names` that holds `k`.
fn find_slot(names: &Vec<String>, k: &String) -> (r: Option<usize>)
    ensures
        r matches Some(i) ==> find_name(names@.map_values(|s: String| s@), k@) == Some(i as int),
        r is None ==> find_name(names@.map_values(|s: String| s@), k@) is None,
{
    let ghost ns = names@.map_values(|s: String| s@);
    let mut i = names.len();
    assert(ns.subrange(0, i as int) =~= ns);
    while i > 0
        invariant
            i <= names@.len(),
            ns == names@.map_values(|s: String| s@),
            find_name(ns, k@) == find_name(ns.subrange(0, i as int), k@),
        decreases i,
    {
        let ghost pre = ns.subrange(0, i as int);
        assert(pre.drop_last() =~= ns.subrange(0, i - 1));
        if names[i - 1] == *k {
            return Some(i - 1);
        }
        i = i - 1;
    }
    assert(ns.subrange(0, 0) =~= Seq::<Seq<char>>::empty());
    None
}

proof fn lemma_view_update(fs: Seq<Frame>, h: int, f: Frame)
    requires
        0 <= h < fs.len(),
    ensures
        fs.update(h, f).map_values(|x: Frame| x@) == fs.map_values(|x: Frame| x@).update(h, f@),
{
    assert(fs.update(h, f).map_values(|x: Frame| x@) =~= fs.map_values(|x: Frame| x@).update(h, f@));
}

impl Environment {
    pub open spec fn wf(&self) -> bool {
        frames_wf(self@)
    }

    /// A store with one scope, the global one, at handle 0.
    pub fn new() -> (r: Self)
        ensures
            r.wf(),
            r@.len() == 1,
            r@[0].names.len() == 0,
            r@[0].enclosing is None,
    {
        let mut frames = Vec::new();
        frames.push(Frame { names: Vec::new(), values: Vec::new(), enclosing: None });
        let r = Environment { frames };
        assert(r@[0].names =~= Seq::empty());
        r
    }

    /// Adds a fresh, empty scope enclosed by `enclosing` and returns its handle.
    pub fn from(&mut self, enclosing: usize) -> (h: usize)
        requires
            old(self).wf(),
            enclosing < old(self)@.len(),
        ensures
            final(self).wf(),
            h == old(self)@.len(),
            final(self)@ == old(self)@.push(FrameView { names: Seq::empty(), values: Seq::empty(), enclosing: Some(enclosing) }),
    {
        let h = self.frames.len();
        let f = Frame { names: Vec::new(), values: Vec::new(), enclosing: Some(enclosing) };
        proof {
            assert(f@.names =~= Seq::empty());
        }
        let ghost before = self.frames@;
        self.frames.push(f);
        assert(self.frames@.map_values(|x: Frame| x@) =~= before.map_values(|x: Frame| x@).push(f@));
        assert forall|i: int| 0 <= i < self@.len() implies {
            &&& #[trigger] self@[i].names.len() == self@[i].values.len()
            &&& (self@[i].enclosing matches Some(p) ==> p < i)
        } by {
            if i < h {
                assert(self@[i] == old(self)@[i]);
            }
        }
        h
    }

    /// Binds `name` to `value` in scope `h` itself.
    pub fn define(&mut self, h: usize, name: String, value: VariTypes)
        requires
            old(self).wf(),
            h < old(self)@.len(),
        ensures
            final(self).wf(),
            final(self)@ == define_in(old(self)@, h as int, name@, value),
            final(self)@.len() == old(self)@.len(),
    {
        let ghost old_view = self@;
        let mut f = Frame { names: Vec::new(), values: Vec::new(), enclosing: None };
        std::mem::swap(&mut f, &mut self.frames[h]);
        let ghost of = f;
        assert(of@ == old_view[h as int]);
        assert(of@.names.len() == of@.values.len());
        match find_slot(&f.names, &name) {
            Some(i) => {
                proof { lemma_find_name_bound(of@.names, name@); }
                f.values.set(i, value);
                assert(f@ == (FrameView { values: of@.values.update(i as int, value), ..of@ }));
            },
            None => {
                f.names.push(name);
                f.values.push(value);
                assert(f@.names =~= of@.names.push(name@));
                assert(f@ == (FrameView { names: of@.names.push(name@), values: of@.values.push(value), ..of@ }));
            },
        }
        let ghost mid = self.frames@;
        std::mem::swap(&mut f, &mut self.frames[h]);
        proof {
            lemma_view_update(mid, h as int, self.frames@[h as int]);
            assert(self.frames@ == mid.update(h as int, self.frames@[h as int]));
            assert(mid.map_values(|x: Frame| x@) =~= old_view.update(h as int, mid[h as int]@));
            assert(self@ =~= define_in(old_view, h as int, name@, value));
            lemma_find_name_bound(old_view[h as int].names, name@);
            assert(old_view[h as int].names.len() == old_view[h as int].values.len());
            assert(self@[h as int].names.len() == self@[h as int].values.len());
            assert(self@[h as int].enclosing == old_view[h as int].enclosing);
            assert forall|j: int| 0 <= j < self@.len() implies {
                &&& #[trigger] self@[j].names.len() == self@[j].values.len()
                &&& (self@[j].enclosing matches Some(p) ==> p < j)
            } by {
                if j != h {
                    assert(self@[j] == old_view[j]);
                } else {
                    lemma_find_name_bound(old_view[j].names, name@);
                    assert(old_view[j].names.len() == old_view[j].values.len());
                }
            }
            assert(frames_wf(self@));
        }
    }
}


impl Environment {
    /// Finds the scope and slot that `name` denotes from scope `h`.
    pub fn resolve(&self, h: usize, name: &String) -> (r: Option<(usize, usize)>)
        requires
            self.wf(),
        ensures
            r matches Some((f, i)) ==> resolve(self@, h as int, name@) == Some((f as int, i as int)),
            r is None ==> resolve(self@, h as int, name@) is None,
    {
        if h >= self.frames.len() {
            return None;
        }
        let mut cur = h;
        loop
            invariant
                self.wf(),
                cur < self@.len(),
                resolve(self@, cur as int, name@) == resolve(self@, h as int, name@),
            decreases cur,
        {
            assert(self@[cur as int].names == self.frames@[cur as int].names@.map_values(|s: String| s@));
            match find_slot(&self.frames[cur].names, name) {
                Some(i) => {
                    return Some((cur, i));
                },
                None => {
                    match self.frames[cur].enclosing {
                        Some(p) => {
                            assert(self@[cur as int].enclosing == Some(p));
                            cur = p;
                        },
                        None => {
                            return None;
                        },
                    }
                },
            }
        }
    }

    /// The value of `name` seen from scope `h`: the innermost binding on the enclosing chain.
    pub fn get(&self, h: usize, name: &String) -> (r: Option<VariTypes>)
        requires
            self.wf(),
        ensures
            r == lookup(self@, h as int, name@),
    {
        match self.resolve(h, name) {
            Some((f, i)) => {
                proof { lemma_resolve_bound(self@, h as int, name@); }
                assert(self@[f as int].values == self.frames@[f as int].values@);
                Some(self.frames[f].values[i].clone())
            },
            None => None,
        }
    }

    /// The value bound to `name` in scope `h` itself.
    pub fn get_local(&self, h: usize, name: &String) -> (r: Option<VariTypes>)
        requires
            self.wf(),
            h < self@.len(),
        ensures
            r == (match find_name(self@[h as int].names, name@) {
                Some(i) => Some(self@[h as int].values[i]),
                None => None,
            }),
    {
        assert(self@[h as int].names == self.frames@[h as int].names@.map_values(|s: String| s@));
        match find_slot(&self.frames[h].names, name) {
            Some(i) => {
                proof { lemma_find_name_bound(self@[h as int].names, name@); }
                Some(self.frames[h].values[i].clone())
            },
            None => None,
        }
    }

    fn write(&mut self, f: usize, i: usize, value: VariTypes)
        requires
            old(self).wf(),
            f < old(self)@.len(),
            i < old(self)@[f as int].values.len(),
        ensures
            final(self).wf(),
            final(self)@ == write_slot(old(self)@, f as int, i as int, value),
    {
        let ghost old_view = self@;
        let mut fr = Frame { names: Vec::new(), values: Vec::new(), enclosing: None };
        std::mem::swap(&mut fr, &mut self.frames[f]);
        assert(fr@ == old_view[f as int]);
        fr.values.set(i, value);
        assert(fr@ == (FrameView { values: old_view[f as int].values.update(i as int, value), ..old_view[f as int] }));
        let ghost mid = self.frames@;
        std::mem::swap(&mut fr, &mut self.frames[f]);
        proof {
            lemma_view_update(mid, f as int, self.frames@[f as int]);
            assert(mid.map_values(|x: Frame| x@) =~= old_view.update(f as int, mid[f as int]@));
            assert(self@ =~= write_slot(old_view, f as int, i as int, value));
            assert forall|j: int| 0 <= j < self@.len() implies {
                &&& #[trigger] self@[j].names.len() == self@[j].values.len()
                &&& (self@[j].enclosing matches Some(p) ==> p < j)
            } by {
                if j != f {
                    assert(self@[j] == old_view[j]);
                }
            }
            assert(frames_wf(self@));
        }
    }

    /// Overwrites the innermost binding of `name` seen from scope `h`. Returns `false`, and
    /// changes nothing, when `name` is bound nowhere on the chain.
    pub fn assign(&mut self, h: usize, name: &String, value: VariTypes) -> (r: bool)
        requires
            old(self).wf(),
        ensures
            final(self).wf(),
            r == resolve(old(self)@, h as int, name@) is Some,
            final(self)@.len() == old(self)@.len(),
            r ==> final(self)@ == assign_in(old(self)@, h as int, name@, value)->0,
            !r ==> final(self)@ == old(self)@,
    {
        match self.resolve(h, name) {
            Some((f, i)) => {
                proof { lemma_resolve_bound(self@, h as int, name@); }
                self.write(f, i, value);
                true
            },
            None => false,
        }
    }
}


impl Environment {
    /// Adds a fresh, empty scope that no scope encloses and returns its handle.
    pub fn add_root(&mut self) -> (h: usize)
        requires
            old(self).wf(),
        ensures
            final(self).wf(),
            h == old(self)@.len(),
            final(self)@ == old(self)@.push(FrameView { names: Seq::empty(), values: Seq::empty(), enclosing: None }),
    {
        let h = self.frames.len();
        let f = Frame { names: Vec::new(), values: Vec::new(), enclosing: None };
        proof {
            assert(f@.names =~= Seq::empty());
        }
        let ghost before = self.frames@;
        self.frames.push(f);
        assert(self.frames@.map_values(|x: Frame| x@) =~= before.map_values(|x: Frame| x@).push(f@));
        assert forall|i: int| 0 <= i < self@.len() implies {
            &&& #[trigger] self@[i].names.len() == self@[i].values.len()
            &&& (self@[i].enclosing matches Some(p) ==> p < i)
        } by {
            if i < h {
                assert(self@[i] == old(self)@[i]);
            }
        }
        h
    }
}


proof fn lemma_resolve_after_write(fs: Seq<FrameView>, f: int, i: int, v: VariTypes, h: int, k: Seq<char>)
    requires
        0 <= f < fs.len(),
    ensures
        resolve(write_slot(fs, f, i, v), h, k) == resolve(fs, h, k),
    decreases h,
{
    let ws = write_slot(fs, f, i, v);
    if 0 <= h < fs.len() {
        assert(ws[h].names == fs[h].names);
        assert(ws[h].enclosing == fs[h].enclosing);
        if let Some(p) = fs[h].enclosing {
            if p < h {
                lemma_resolve_after_write(fs, f, i, v, p as int, k);
            }
        }
    }
}

proof fn lemma_resolve_after_push(fs: Seq<FrameView>, x: FrameView, h: int, k: Seq<char>)
    requires
        h < fs.len(),
    ensures
        resolve(fs.push(x), h, k) == resolve(fs, h, k),
    decreases h,
{
    if 0 <= h {
        assert(fs.push(x)[h] == fs[h]);
        if let Some(p) = fs[h].enclosing {
            if p < h {
                lemma_resolve_after_push(fs, x, p as int, k);
            }
        }
    }
}

/// A binding reached from two scopes is one binding: once it is assigned through either
/// scope, both see the new value. This is how a closure and any other holder of the scope it
/// captured share that scope's variables.
pub proof fn lemma_shared_binding(fs: Seq<FrameView>, h1: int, h2: int, k: Seq<char>, v: VariTypes)
    requires
        frames_wf(fs),
        resolve(fs, h1, k) is Some,
        resolve(fs, h2, k) == resolve(fs, h1, k),
    ensures
        assign_in(fs, h1, k, v) is Some,
        lookup(assign_in(fs, h1, k, v)->0, h1, k) == Some(v),
        lookup(assign_in(fs, h1, k, v)->0, h2, k) == Some(v),
{
    let (f, i) = resolve(fs, h1, k)->0;
    lemma_resolve_bound(fs, h1, k);
    lemma_resolve_after_write(fs, f, i, v, h1, k);
    lemma_resolve_after_write(fs, f, i, v, h2, k);
}

/// A fresh scope enclosed by `s` (the frame of a call to a function that closed over `s`)
/// sees every binding of `s`'s chain, at the same place, as long as it binds nothing itself;
/// adding it changes what no other scope sees.
pub proof fn lemma_new_scope_sees_enclosing(fs: Seq<FrameView>, s: usize, k: Seq<char>, h: int)
    requires
        frames_wf(fs),
        0 <= s < fs.len(),
        h < fs.len(),
    ensures
        resolve(fs.push(FrameView { names: Seq::empty(), values: Seq::empty(), enclosing: Some(s) }), fs.len() as int, k)
            == resolve(fs, s as int, k),
        resolve(fs.push(FrameView { names: Seq::empty(), values: Seq::empty(), enclosing: Some(s) }), h, k)
            == resolve(fs, h, k),
{
    let x = FrameView { names: Seq::empty(), values: Seq::empty(), enclosing: Some(s) };
    lemma_resolve_after_push(fs, x, s as int, k);
    assert(find_name(x.names, k) is None);
    lemma_resolve_after_push(fs, x, h, k);
    assert(fs.push(x)[fs.len() as int] == x);
}

} // verus!
