use vstd::prelude::*;

verus! {

/// A named local variable of a function, as recorded in the debug info.
/// `scope_start == 0` marks a parameter.
pub struct Local {
    pub name: Vec<u8>,
    pub scope_start: usize,
    pub scope_end: usize,
    pub register: u8,
}

/// The mathematical value of a `Local`.
pub ghost struct LocalView {
    pub name: Seq<u8>,
    pub scope_start: usize,
    pub scope_end: usize,
    pub register: u8,
}

impl View for Local {
    type V = LocalView;

    open spec fn view(&self) -> LocalView {
        LocalView {
            name: self.name@,
            scope_start: self.scope_start,
            scope_end: self.scope_end,
            register: self.register,
        }
    }
}

/// One decoded function: its name (if any), named locals and upvalues in
/// declaration order, and the line where it starts.
pub struct Prototype {
    pub name: Option<Vec<u8>>,
    pub locals: Vec<Local>,
    pub upvalues: Vec<Vec<u8>>,
    pub file_scope: Option<(usize, usize)>,
}

/// The mathematical value of a `Prototype`.
pub ghost struct ProtoView {
    pub name: Option<Seq<u8>>,
    pub locals: Seq<LocalView>,
    pub upvalues: Seq<Seq<u8>>,
    pub file_scope: Option<(usize, usize)>,
}

pub open spec fn opt_view(o: Option<Vec<u8>>) -> Option<Seq<u8>> {
    match o {
        Some(v) => Some(v@),
        None => None,
    }
}

impl View for Prototype {
    type V = ProtoView;

    open spec fn view(&self) -> ProtoView {
        ProtoView {
            name: opt_view(self.name),
            locals: self.locals@.map_values(|l: Local| l@),
            upvalues: self.upvalues@.map_values(|u: Vec<u8>| u@),
            file_scope: self.file_scope,
        }
    }
}

pub open spec fn protos_view(v: Seq<Prototype>) -> Seq<ProtoView> {
    v.map_values(|p: Prototype| p@)
}


/// Whether a local is selected: parameters (`scope_start == 0`) or true
/// locals (`scope_start > 0`).
pub open spec fn selected(l: LocalView, params: bool) -> bool {
    if params {
        l.scope_start == 0
    } else {
        l.scope_start > 0
    }
}

/// The sort key of a selected local: register for parameters, scope start
/// for true locals.
pub open spec fn sort_key(l: LocalView, params: bool) -> int {
    if params {
        l.register as int
    } else {
        l.scope_start as int
    }
}

/// The selected locals as `(key, name)` entries, in declaration order.
pub open spec fn select(ls: Seq<LocalView>, params: bool) -> Seq<(int, Seq<u8>)>
    decreases ls.len(),
{
    if ls.len() == 0 {
        seq![]
    } else {
        let rest = select(ls.drop_last(), params);
        let l = ls.last();
        if selected(l, params) {
            rest.push((sort_key(l, params), l.name))
        } else {
            rest
        }
    }
}

/// Inserts `x` after every leading entry whose key is not above its own.
pub open spec fn insert_sorted(x: (int, Seq<u8>), t: Seq<(int, Seq<u8>)>) -> Seq<(int, Seq<u8>)>
    decreases t.len(),
{
    if t.len() == 0 {
        seq![x]
    } else if x.0 < t[0].0 {
        seq![x] + t
    } else {
        seq![t[0]] + insert_sorted(x, t.skip(1))
    }
}

/// Stable sort by key: entries with equal keys keep their order.
pub open spec fn sort_stable(s: Seq<(int, Seq<u8>)>) -> Seq<(int, Seq<u8>)>
    decreases s.len(),
{
    if s.len() == 0 {
        seq![]
    } else {
        insert_sorted(s.last(), sort_stable(s.drop_last()))
    }
}

pub open spec fn names_of(s: Seq<(int, Seq<u8>)>) -> Seq<Seq<u8>> {
    s.map_values(|e: (int, Seq<u8>)| e.1)
}

/// True locals of a function, ordered by scope start (stable).
pub open spec fn spec_get_locals(p: ProtoView) -> Seq<Seq<u8>> {
    names_of(sort_stable(select(p.locals, false)))
}

/// Parameters of a function, ordered by register (stable).
pub open spec fn spec_get_parameters(p: ProtoView) -> Seq<Seq<u8>> {
    names_of(sort_stable(select(p.locals, true)))
}

proof fn lemma_insert_at(x: (int, Seq<u8>), t: Seq<(int, Seq<u8>)>, j: int)
    requires
        0 <= j <= t.len(),
        forall|k: int| 0 <= k < j ==> t[k].0 <= x.0,
        j == t.len() || x.0 < t[j].0,
    ensures
        insert_sorted(x, t) == t.subrange(0, j) + seq![x] + t.subrange(j, t.len() as int),
    decreases j,
{
    if j == 0 {
        if t.len() == 0 {
            assert(t.subrange(0, 0) + seq![x] + t.subrange(0, 0) =~= seq![x]);
        } else {
            assert(t.subrange(0, 0) + seq![x] + t.subrange(0, t.len() as int) =~= seq![x] + t);
        }
    } else {
        let u = t.skip(1);
        assert forall|k: int| 0 <= k < j - 1 implies u[k].0 <= x.0 by {
            assert(u[k] == t[k + 1]);
        }
        lemma_insert_at(x, u, j - 1);
        assert(t.subrange(0, j) + seq![x] + t.subrange(j, t.len() as int) =~= seq![t[0]] + (u.subrange(0, j - 1) + seq![x] + u.subrange(j - 1, u.len() as int)));
    }
}

pub open spec fn entry_views(v: Seq<(usize, Vec<u8>)>) -> Seq<(int, Seq<u8>)> {
    v.map_values(|e: (usize, Vec<u8>)| (e.0 as int, e.1@))
}

fn sorted_names(locals: &Vec<Local>, params: bool) -> (r: Vec<Vec<u8>>)
    ensures
        r@.map_values(|v: Vec<u8>| v@) == names_of(sort_stable(select(locals@.map_values(|l: Local| l@), params))),
{
    let ghost lv = locals@.map_values(|l: Local| l@);
    let mut acc: Vec<(usize, Vec<u8>)> = Vec::new();
    let mut i: usize = 0;
    while i < locals.len()
        invariant
            i <= locals@.len(),
            lv == locals@.map_values(|l: Local| l@),
            entry_views(acc@) == sort_stable(select(lv.subrange(0, i as int), params)),
        decreases locals@.len() - i,
    {
        let l = &locals[i];
        assert(lv.subrange(0, i + 1).drop_last() =~= lv.subrange(0, i as int));
        assert(lv.subrange(0, i + 1).last() == lv[i as int]);
        let pick = if params { l.scope_start == 0 } else { l.scope_start > 0 };
        if pick {
            let key: usize = if params { l.register as usize } else { l.scope_start };
            let name = crate::bytes::copy_bytes(&l.name);
            let ghost x = (key as int, name@);
            let ghost t = entry_views(acc@);
            let mut j: usize = 0;
            while j < acc.len() && acc[j].0 <= key
                invariant
                    j <= acc@.len(),
                    t == entry_views(acc@),
                    forall|k: int| 0 <= k < j ==> t[k].0 <= x.0,
                    x.0 == key as int,
                decreases acc@.len() - j,
            {
                j = j + 1;
            }
            proof {
                lemma_insert_at(x, t, j as int);
                let s = select(lv.subrange(0, i + 1), params);
                assert(s.drop_last() =~= select(lv.subrange(0, i as int), params));
                assert(s.last() == x);
            }
            acc.insert(j, (key, name));
            assert(entry_views(acc@) =~= t.subrange(0, j as int) + seq![x] + t.subrange(j as int, t.len() as int));
        }
        i = i + 1;
    }
    assert(lv.subrange(0, i as int) =~= lv);
    let mut out: Vec<Vec<u8>> = Vec::new();
    let mut k: usize = 0;
    while k < acc.len()
        invariant
            k <= acc@.len(),
            out@.map_values(|v: Vec<u8>| v@) == names_of(entry_views(acc@)).subrange(0, k as int),
        decreases acc@.len() - k,
    {
        let name = crate::bytes::copy_bytes(&acc[k].1);
        let ghost before = out@;
        let ghost nv = name@;
        assert(nv == names_of(entry_views(acc@))[k as int]);
        out.push(name);
        k = k + 1;
        assert(out@.map_values(|v: Vec<u8>| v@) =~= before.map_values(|v: Vec<u8>| v@).push(nv));
        assert(out@.map_values(|v: Vec<u8>| v@) =~= names_of(entry_views(acc@)).subrange(0, k as int));
    }
    assert(names_of(entry_views(acc@)).subrange(0, k as int) =~= names_of(entry_views(acc@)));
    out
}

impl Prototype {
    /// Names of the true locals, ordered by the start of their scope.
    pub fn get_locals(&self) -> (r: Vec<Vec<u8>>)
        ensures
            r@.map_values(|v: Vec<u8>| v@) == spec_get_locals(self@),
    {
        sorted_names(&self.locals, false)
    }

    /// Names of the parameters, ordered by register.
    pub fn get_parameters(&self) -> (r: Vec<Vec<u8>>)
        ensures
            r@.map_values(|v: Vec<u8>| v@) == spec_get_parameters(self@),
    {
        sorted_names(&self.locals, true)
    }
}

} // verus!
