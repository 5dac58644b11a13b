use vstd::prelude::*;

use crate::bytes::{
    copy_bytes, copy_range, eq_bytes, find_and_replace, find_bytes_from, first_occurrence,
    insert_bytes, inserted, lemma_first_occurrence, push_all, replace_once, replaced_from,
    replaced_once,
};
use crate::decoder::seq_views;
use crate::locate::{find_position_of_function, function_keyword, spec_locate};
use crate::prototype::{ProtoView, Prototype, spec_get_parameters};
use crate::text::{
    class_path, colon_path, colon_path_bytes, first_class_path, join, join_bytes, split_commas,
    split_commas_bytes, trim, trim_bytes,
};

verus! {

/// A located function definition in decompiled text, with what is needed to
/// rewrite it.
pub struct FunctionParser {
    pub name: Vec<u8>,
    /// Where the definition starts in the text.
    pub position: usize,
    /// Length of the definition line.
    pub initial_size: usize,
    /// Parameter names recovered from the bytecode.
    pub parameters: Vec<Vec<u8>>,
    /// The definition line as it stood in the text.
    pub definition: Vec<u8>,
    /// The parameters of the definition line, split at commas.
    pub definition_parameters: Vec<Vec<u8>>,
    /// The text between the parentheses of the definition line.
    pub definition_parameters_str: Vec<u8>,
    /// Whether one side of a parameter pair is `self`.
    pub has_self: bool,
}

/// The mathematical value of a `FunctionParser`.
pub ghost struct SiteView {
    pub name: Seq<u8>,
    pub position: usize,
    pub initial_size: usize,
    pub parameters: Seq<Seq<u8>>,
    pub definition: Seq<u8>,
    pub definition_parameters: Seq<Seq<u8>>,
    pub definition_parameters_str: Seq<u8>,
    pub has_self: bool,
}

impl View for FunctionParser {
    type V = SiteView;

    open spec fn view(&self) -> SiteView {
        SiteView {
            name: self.name@,
            position: self.position,
            initial_size: self.initial_size,
            parameters: seq_views(self.parameters@),
            definition: self.definition@,
            definition_parameters: seq_views(self.definition_parameters@),
            definition_parameters_str: self.definition_parameters_str@,
            has_self: self.has_self,
        }
    }
}

pub open spec fn self_word() -> Seq<u8> {
    seq![0x73u8, 0x65, 0x6C, 0x66]
}

pub open spec fn underscore() -> Seq<u8> {
    seq![0x5Fu8]
}

pub open spec fn comma_space() -> Seq<u8> {
    seq![0x2Cu8, 0x20]
}

pub open spec fn crlf() -> Seq<u8> {
    seq![0x0Du8, 0x0A]
}

/// `(` + `s` + `)`.
pub open spec fn parenthesized(s: Seq<u8>) -> Seq<u8> {
    seq![0x28u8] + s + seq![0x29u8]
}

/// The text between the first `(` of a definition line and the first `)`
/// after it.
pub open spec fn paren_params(def: Seq<u8>) -> Option<Seq<u8>> {
    match first_occurrence(def, seq![0x28u8], 0) {
        Some(o) => match first_occurrence(def, seq![0x29u8], o + 1) {
            Some(c) => Some(def.subrange(o + 1, c)),
            None => None,
        },
        None => None,
    }
}

/// Locating a function's definition: the site and the text with a line
/// break inserted before it, or none when the function is skipped.
pub open spec fn spec_from(buf: Seq<u8>, proto: ProtoView) -> Option<(SiteView, Seq<u8>)> {
    let params = spec_get_parameters(proto);
    if proto.name is None || params.len() == 0 {
        None
    } else {
        let name = proto.name.unwrap();
        match spec_locate(buf, name, 0) {
            Some(pos) => match first_occurrence(buf, seq![0x0Au8], pos) {
                Some(nl) => {
                    let def = buf.subrange(pos, nl);
                    match paren_params(def) {
                        Some(dps) => {
                            let parts = split_commas(dps);
                            if dps.len() == 0 || parts.len() != params.len() {
                                None
                            } else {
                                Some(
                                    (
                                        SiteView {
                                            name,
                                            position: (pos + 2) as usize,
                                            initial_size: (nl - pos) as usize,
                                            parameters: params,
                                            definition: def,
                                            definition_parameters: parts,
                                            definition_parameters_str: dps,
                                            has_self: false,
                                        },
                                        inserted(buf, pos, crlf()),
                                    ),
                                )
                            }
                        },
                        None => None,
                    }
                },
                None => None,
            },
            None => None,
        }
    }
}

/// Renaming one parameter from `pos` on; `_` and empty names are left.
pub open spec fn rename_one(b: Seq<u8>, d: Seq<u8>, n: Seq<u8>, pos: int) -> Seq<u8> {
    if d == underscore() || d.len() == 0 {
        b
    } else {
        replaced_from(b, d, n, pos)
    }
}

/// The first `k` parameter renames, in order.
pub open spec fn rename_pairs(b: Seq<u8>, ds: Seq<Seq<u8>>, ns: Seq<Seq<u8>>, pos: int, k: int) -> Seq<u8>
    decreases k,
{
    if k <= 0 {
        b
    } else {
        rename_one(rename_pairs(b, ds, ns, pos, k - 1), trim(ds[k - 1]), ns[k - 1], pos)
    }
}

/// Whether some parameter pair has `self` on one side.
pub open spec fn mentions_self(ds: Seq<Seq<u8>>, ns: Seq<Seq<u8>>) -> bool {
    exists|k: int| 0 <= k < ds.len() && (trim(#[trigger] ds[k]) == self_word() || ns[k] == self_word())
}

/// The text after renaming the parameters of a site: the parameter list is
/// replaced once, at the site, then each original name from the site on.
pub open spec fn spec_rename_parameters(b: Seq<u8>, sv: SiteView) -> Seq<u8> {
    let sig = parenthesized(sv.definition_parameters_str);
    let rep = parenthesized(join(sv.parameters, comma_space()));
    rename_pairs(
        replaced_once(b, sig, rep, sv.position as int),
        sv.definition_parameters,
        sv.parameters,
        sv.position as int,
        sv.definition_parameters.len() as int,
    )
}

/// The text after turning a `Table.member(self, ...)` definition into
/// `Table:member(...)`.
pub open spec fn spec_rename_self(b: Seq<u8>, sv: SiteView) -> Seq<u8> {
    if !sv.has_self {
        b
    } else {
        match first_class_path(sv.definition, 0) {
            Some(path) => {
                let head = function_keyword() + path;
                let new_head = function_keyword() + colon_path(path);
                if sv.definition_parameters.len() == 1 {
                    replaced_from(
                        b,
                        head + seq![0x28u8] + self_word() + seq![0x29u8],
                        new_head + seq![0x28u8, 0x29],
                        sv.position as int,
                    )
                } else {
                    replaced_from(
                        b,
                        head + seq![0x28u8] + self_word() + comma_space(),
                        new_head + seq![0x28u8],
                        sv.position as int,
                    )
                }
            },
            None => b,
        }
    }
}

fn parenthesize(s: &[u8]) -> (r: Vec<u8>)
    ensures
        r@ == parenthesized(s@),
{
    let mut r: Vec<u8> = vec![0x28];
    push_all(&mut r, s);
    r.push(0x29);
    assert(r@ =~= parenthesized(s@));
    r
}

impl FunctionParser {
    /// Locates the definition of a named function with parameters, reads
    /// its parameter list, and when that list has as many entries as the
    /// bytecode gives parameters, inserts a line break before it.
    pub fn from(buffer: &mut Vec<u8>, proto: &Prototype) -> (r: Option<FunctionParser>)
        ensures
            match spec_from(old(buffer)@, proto@) {
                Some((sv, nb)) => r is Some && r.unwrap()@ == sv && final(buffer)@ == nb,
                None => r is None && final(buffer)@ == old(buffer)@,
            },
    {
        let parameters = proto.get_parameters();
        let name = match &proto.name {
            Some(n) => copy_bytes(n),
            None => {
                return None;
            },
        };
        if parameters.len() == 0 {
            return None;
        }
        let position = match find_position_of_function(buffer, &name, 0) {
            Some(p) => p,
            None => {
                return None;
            },
        };
        let newline: Vec<u8> = vec![0x0A];
        assert(newline@ =~= seq![0x0Au8]);
        let initial_size = match find_bytes_from(buffer, &newline, position) {
            Some(k) => k,
            None => {
                return None;
            },
        };
        proof { lemma_first_occurrence(buffer@, seq![0x0Au8], position as int); }
        let blen = buffer.len();
        assert(position + initial_size < blen);
        let definition = copy_range(buffer, position, position + initial_size);
        let open: Vec<u8> = vec![0x28];
        let close: Vec<u8> = vec![0x29];
        assert(open@ =~= seq![0x28u8]);
        assert(close@ =~= seq![0x29u8]);
        let o = match find_bytes_from(&definition, &open, 0) {
            Some(k) => k,
            None => {
                return None;
            },
        };
        proof { lemma_first_occurrence(definition@, seq![0x28u8], 0); }
        let c = match find_bytes_from(&definition, &close, o + 1) {
            Some(k) => k,
            None => {
                return None;
            },
        };
        proof { lemma_first_occurrence(definition@, seq![0x29u8], o + 1); }
        let definition_parameters_str = copy_range(&definition, o + 1, o + 1 + c);
        let definition_parameters = split_commas_bytes(&definition_parameters_str);
        if definition_parameters_str.len() == 0 || definition_parameters.len() != parameters.len() {
            return None;
        }
        insert_bytes(buffer, position, &[0x0D, 0x0A]);
        proof {
            assert(seq![0x0Du8, 0x0A] =~= crlf());
        }
        Some(FunctionParser {
            name,
            position: position + 2,
            initial_size,
            parameters,
            definition,
            definition_parameters,
            definition_parameters_str,
            has_self: false,
        })
    }

    /// Renames the parameters of the definition after the bytecode's names:
    /// the parameter list is replaced once, at the site, then each original
    /// name from the site on (`_` is left alone).
    pub fn rename_parameters(&mut self, buffer: &mut Vec<u8>)
        requires
            old(self).parameters@.len() == old(self).definition_parameters@.len(),
        ensures
            final(buffer)@ == spec_rename_parameters(old(buffer)@, old(self)@),
            final(self)@ == (SiteView {
                has_self: old(self)@.has_self || mentions_self(
                    old(self)@.definition_parameters,
                    old(self)@.parameters,
                ),
                ..old(self)@
            }),
    {
        let ghost sv = self@;
        let search = parenthesize(self.definition_parameters_str.as_slice());
        let joined = join_bytes(&self.parameters, &[0x2C, 0x20]);
        proof {
            assert(seq![0x2Cu8, 0x20] =~= comma_space());
        }
        let replace = parenthesize(joined.as_slice());
        replace_once(buffer, &search, &replace, self.position);
        let ghost start = buffer@;
        let self_bytes: [u8; 4] = [0x73, 0x65, 0x6C, 0x66];
        let under: [u8; 1] = [0x5F];
        assert(self_bytes@ =~= self_word());
        assert(under@ =~= underscore());
        let n = self.definition_parameters.len();
        let mut found = false;
        let mut i: usize = 0;
        while i < n
            invariant
                i <= n,
                n == sv.definition_parameters.len(),
                sv.parameters.len() == n,
                self@ == sv,
                self_bytes@ == self_word(),
                under@ == underscore(),
                buffer@ == rename_pairs(start, sv.definition_parameters, sv.parameters, sv.position as int, i as int),
                found == exists|k: int| 0 <= k < i && (trim(#[trigger] sv.definition_parameters[k]) == self_word() || sv.parameters[k] == self_word()),
            decreases n - i,
        {
            let d = trim_bytes(&self.definition_parameters[i]);
            let name = &self.parameters[i];
            assert(d@ == trim(sv.definition_parameters[i as int]));
            assert(name@ == sv.parameters[i as int]);
            if eq_bytes(d.as_slice(), self_bytes.as_slice()) || eq_bytes(name.as_slice(), self_bytes.as_slice()) {
                found = true;
            }
            if !eq_bytes(d.as_slice(), under.as_slice()) && d.len() > 0 {
                find_and_replace(buffer, &d, name, self.position);
            }
            proof {
                let ii = i as int;
                if trim(sv.definition_parameters[ii]) == self_word() || sv.parameters[ii] == self_word() {
                    assert(0 <= ii < ii + 1 && (trim(sv.definition_parameters[ii]) == self_word() || sv.parameters[ii] == self_word()));
                } else {
                    assert forall|k: int| 0 <= k < ii + 1 && (trim(#[trigger] sv.definition_parameters[k]) == self_word() || sv.parameters[k] == self_word()) implies k < ii by {}
                }
            }
            i = i + 1;
        }
        assert(i == n);
        assert(found == exists|k: int| 0 <= k < i && (trim(#[trigger] sv.definition_parameters[k]) == self_word() || sv.parameters[k] == self_word()));
        proof {
            let ds = sv.definition_parameters;
            let ns = sv.parameters;
            if found {
                let k = choose|k: int| 0 <= k < i && (trim(#[trigger] sv.definition_parameters[k]) == self_word() || sv.parameters[k] == self_word());
                assert(0 <= k < ds.len() && (trim(ds[k]) == self_word() || ns[k] == self_word()));
                assert(mentions_self(ds, ns));
            } else {
                assert forall|k: int| 0 <= k < ds.len() implies !(trim(#[trigger] ds[k]) == self_word() || ns[k] == self_word()) by {
                    assert(k < i);
                }
            }
        }
        self.has_self = self.has_self || found;
    }

    /// When the site has a `self` parameter and a `Table.member` name,
    /// rewrites `function Table.member(self, ...)` as
    /// `function Table:member(...)`.
    pub fn rename_self(&mut self, buffer: &mut Vec<u8>)
        ensures
            final(buffer)@ == spec_rename_self(old(buffer)@, old(self)@),
            final(self)@ == old(self)@,
    {
        if !self.has_self {
            return;
        }
        let path = match self.get_class_path() {
            Some(p) => p,
            None => {
                return;
            },
        };
        let new_path = colon_path_bytes(&path);
        let mut search: Vec<u8> = vec![102u8, 117, 110, 99, 116, 105, 111, 110, 32];
        let mut replace: Vec<u8> = vec![102u8, 117, 110, 99, 116, 105, 111, 110, 32];
        assert(search@ =~= function_keyword());
        push_all(&mut search, path.as_slice());
        push_all(&mut replace, new_path.as_slice());
        if self.definition_parameters.len() == 1 {
            push_all(&mut search, &[0x28, 0x73, 0x65, 0x6C, 0x66, 0x29]);
            push_all(&mut replace, &[0x28, 0x29]);
            assert(search@ =~= function_keyword() + path@ + seq![0x28u8] + self_word() + seq![0x29u8]);
            assert(replace@ =~= function_keyword() + new_path@ + seq![0x28u8, 0x29]);
        } else {
            push_all(&mut search, &[0x28, 0x73, 0x65, 0x6C, 0x66, 0x2C, 0x20]);
            push_all(&mut replace, &[0x28]);
            assert(search@ =~= function_keyword() + path@ + seq![0x28u8] + self_word() + comma_space());
            assert(replace@ =~= function_keyword() + new_path@ + seq![0x28u8]);
        }
        find_and_replace(buffer, &search, &replace, self.position);
    }

    /// The `Table.member` name of the definition, if it has one.
    pub fn get_class_path(&self) -> (r: Option<Vec<u8>>)
        ensures
            match first_class_path(self.definition@, 0) {
                Some(p) => r is Some && r.unwrap()@ == p,
                None => r is None,
            },
    {
        class_path(&self.definition)
    }
}


/// A parameter written `_` in the definition is never renamed: its pair
/// leaves the text exactly as the previous pairs left it, whatever name the
/// bytecode gives it.
pub proof fn lemma_underscore_parameter_untouched(
    b: Seq<u8>,
    ds: Seq<Seq<u8>>,
    ns: Seq<Seq<u8>>,
    pos: int,
    k: int,
)
    requires
        0 < k <= ds.len(),
        trim(ds[k - 1]) == underscore(),
    ensures
        rename_pairs(b, ds, ns, pos, k) == rename_pairs(b, ds, ns, pos, k - 1),
{
}

/// When the located definition lists a different number of parameters than
/// the bytecode gives, the function is skipped: no site is made and the text
/// is left as it is.
pub proof fn lemma_arity_mismatch_skipped(buf: Seq<u8>, proto: ProtoView)
    requires
        proto.name is Some,
        spec_get_parameters(proto).len() > 0,
        spec_locate(buf, proto.name.unwrap(), 0) is Some,
        first_occurrence(buf, seq![0x0Au8], spec_locate(buf, proto.name.unwrap(), 0).unwrap()) is Some,
        ({
            let pos = spec_locate(buf, proto.name.unwrap(), 0).unwrap();
            let nl = first_occurrence(buf, seq![0x0Au8], pos).unwrap();
            paren_params(buf.subrange(pos, nl)) is Some && split_commas(
                paren_params(buf.subrange(pos, nl)).unwrap(),
            ).len() != spec_get_parameters(proto).len()
        }),
    ensures
        spec_from(buf, proto) is None,
{
}


proof fn lemma_rename_pairs_keep_prefix(b: Seq<u8>, ds: Seq<Seq<u8>>, ns: Seq<Seq<u8>>, pos: int, k: int)
    requires
        0 <= pos <= b.len(),
        k <= ds.len(),
        k <= ns.len(),
    ensures
        pos <= rename_pairs(b, ds, ns, pos, k).len(),
        rename_pairs(b, ds, ns, pos, k).subrange(0, pos) == b.subrange(0, pos),
    decreases k,
{
    if k > 0 {
        lemma_rename_pairs_keep_prefix(b, ds, ns, pos, k - 1);
        let prev = rename_pairs(b, ds, ns, pos, k - 1);
        let d = trim(ds[k - 1]);
        if !(d == underscore() || d.len() == 0) {
            let r = replaced_from(prev, d, ns[k - 1], pos);
            assert(r.subrange(0, pos) =~= prev.subrange(0, pos));
        }
    }
}

/// Renaming the parameters of a site leaves every byte before the site as
/// it was.
pub proof fn lemma_rename_parameters_keeps_text_before_site(b: Seq<u8>, sv: SiteView)
    requires
        sv.position <= b.len(),
        sv.definition_parameters.len() == sv.parameters.len(),
    ensures
        spec_rename_parameters(b, sv).subrange(0, sv.position as int) == b.subrange(0, sv.position as int),
{
    let pos = sv.position as int;
    let sig = parenthesized(sv.definition_parameters_str);
    let rep = parenthesized(join(sv.parameters, comma_space()));
    let once = replaced_once(b, sig, rep, pos);
    lemma_first_occurrence(b, sig, pos);
    assert(once.subrange(0, pos) =~= b.subrange(0, pos));
    lemma_rename_pairs_keep_prefix(once, sv.definition_parameters, sv.parameters, pos, sv.definition_parameters.len() as int);
}

proof fn lemma_underscore_pairs_untouched(b: Seq<u8>, ds: Seq<Seq<u8>>, ns: Seq<Seq<u8>>, pos: int, k: int)
    requires
        k <= ds.len(),
        forall|j: int| 0 <= j < k ==> trim(#[trigger] ds[j]) == underscore(),
    ensures
        rename_pairs(b, ds, ns, pos, k) == b,
    decreases k,
{
    if k > 0 {
        lemma_underscore_pairs_untouched(b, ds, ns, pos, k - 1);
        assert(trim(ds[k - 1]) == underscore());
    }
}

/// When every parameter of the definition is written `_`, the only change
/// is the parameter list at the site: no `_` anywhere is renamed.
pub proof fn lemma_underscore_site_only_signature(b: Seq<u8>, sv: SiteView)
    requires
        forall|j: int| 0 <= j < sv.definition_parameters.len() ==> trim(#[trigger] sv.definition_parameters[j]) == underscore(),
    ensures
        spec_rename_parameters(b, sv) == replaced_once(
            b,
            parenthesized(sv.definition_parameters_str),
            parenthesized(join(sv.parameters, comma_space())),
            sv.position as int,
        ),
{
    let once = replaced_once(
        b,
        parenthesized(sv.definition_parameters_str),
        parenthesized(join(sv.parameters, comma_space())),
        sv.position as int,
    );
    lemma_underscore_pairs_untouched(once, sv.definition_parameters, sv.parameters, sv.position as int, sv.definition_parameters.len() as int);
}

} // verus!
