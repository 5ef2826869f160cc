//! Switchable modules, shared by the Server and the Agent: each owns the
//! request paths under its routes, may require other modules, and can be
//! switched off by name.

use vstd::prelude::*;
use vstd::string::StrSliceExecFns;

use crate::agent::events::text_eq;
use crate::text::{owned, push_str, starts_with, texts};

verus! {

/// One switchable module: its id, the modules it needs, its route prefixes.
pub struct ModuleDefinition {
    pub id: &'static str,
    pub requires: Vec<&'static str>,
    pub routes: Vec<&'static str>,
}

/// A definition as plain values.
pub struct DefView {
    pub id: Seq<char>,
    pub requires: Seq<Seq<char>>,
    pub routes: Seq<Seq<char>>,
}

pub open spec fn str_views(items: Seq<&'static str>) -> Seq<Seq<char>> {
    items.map_values(|s: &'static str| s@)
}

impl View for ModuleDefinition {
    type V = DefView;

    open spec fn view(&self) -> DefView {
        DefView { id: self.id@, requires: str_views(self.requires@), routes: str_views(self.routes@) }
    }
}

pub open spec fn def_views(defs: Seq<ModuleDefinition>) -> Seq<DefView> {
    defs.map_values(|d: ModuleDefinition| d@)
}

/// A module and whether it is on.
pub struct ModuleInfo {
    pub id: String,
    pub enabled: bool,
}

pub struct ModuleManifest {
    pub modules: Vec<ModuleInfo>,
}

/// A path is under a route when it is the route or continues it after `/`.
pub open spec fn under(path: Seq<char>, route: Seq<char>) -> bool {
    path == route || starts_with(path, route.push('/'))
}

/// The ids of the definitions.
pub open spec fn def_ids(defs: Seq<DefView>) -> Seq<Seq<char>> {
    defs.map_values(|d: DefView| d.id)
}

/// `(module, route)` for every route, in definition order.
pub open spec fn route_pairs(defs: Seq<DefView>) -> Seq<(Seq<char>, Seq<char>)>
    decreases defs.len(),
{
    if defs.len() == 0 {
        seq![]
    } else {
        route_pairs(defs.drop_last()) + defs.last().routes.map_values(|r: Seq<char>| (defs.last().id, r))
    }
}

/// The module of the longest route that `path` is under (the earliest of
/// equally long ones).
pub open spec fn owner_among(pairs: Seq<(Seq<char>, Seq<char>)>, path: Seq<char>) -> Option<(Seq<char>, nat)>
    decreases pairs.len(),
{
    if pairs.len() == 0 {
        None
    } else {
        let best = owner_among(pairs.drop_last(), path);
        let p = pairs.last();
        if under(path, p.1) && (best matches Some(b) ==> p.1.len() > b.1) {
            Some((p.0, p.1.len()))
        } else {
            best
        }
    }
}

pub open spec fn owner(defs: Seq<DefView>, path: Seq<char>) -> Option<Seq<char>> {
    match owner_among(route_pairs(defs), path) {
        Some((id, _)) => Some(id),
        None => None,
    }
}

/// Whether `path` is under `route`.
fn is_under(path: &str, route: &str) -> (r: bool)
    ensures
        r == under(path@, route@),
{
    let mut prefix = owned(route);
    crate::text::push_char(&mut prefix, '/');
    if text_eq(path, route) {
        return true;
    }
    let v = crate::text::chars_of(path);
    let r = crate::text::span_starts_with(&v, 0, v.len(), prefix.as_str());
    proof {
        if prefix@.len() <= v@.len() {
            assert(v@.subrange(0, prefix@.len() as int) =~= path@.take(prefix@.len() as int));
        }
    }
    r
}

/// The module that owns `path`: the one with the longest route `path` is
/// under.
pub fn module_owner(defs: &Vec<ModuleDefinition>, path: &str) -> (r: Option<&'static str>)
    ensures
        match owner(def_views(defs@), path@) {
            Some(id) => r matches Some(s) && s@ == id,
            None => r is None,
        },
{
    let ghost dv = def_views(defs@);
    let mut best: Option<(&'static str, usize)> = None;
    let ghost mut done: Seq<(Seq<char>, Seq<char>)> = seq![];
    let mut d: usize = 0;
    while d < defs.len()
        invariant
            d <= defs@.len(),
            dv == def_views(defs@),
            done == route_pairs(dv.take(d as int)),
            match owner_among(done, path@) {
                Some((id, n)) => best matches Some(b) && b.0@ == id && b.1 as nat == n,
                None => best is None,
            },
        decreases defs@.len() - d,
    {
        let def = &defs[d];
        let ghost base = done;
        let ghost rs = dv[d as int].routes.map_values(|r: Seq<char>| (dv[d as int].id, r));
        assert(dv.take(d + 1).drop_last() =~= dv.take(d as int));
        assert(dv.take(d + 1).last() == dv[d as int]);
        assert(route_pairs(dv.take(d + 1)) == base + rs);
        let mut k: usize = 0;
        assert(base + rs.take(0) =~= base);
        while k < def.routes.len()
            invariant
                k <= def.routes@.len(),
                d < defs@.len(),
                *def == defs@[d as int],
                dv == def_views(defs@),
                rs == dv[d as int].routes.map_values(|r: Seq<char>| (dv[d as int].id, r)),
                done == base + rs.take(k as int),
                match owner_among(done, path@) {
                    Some((id, n)) => best matches Some(b) && b.0@ == id && b.1 as nat == n,
                    None => best is None,
                },
            decreases def.routes@.len() - k,
        {
            let route = def.routes[k];
            proof {
                assert((base + rs.take(k + 1)).drop_last() =~= base + rs.take(k as int));
                assert(rs[k as int] == (def.id@, route@));
                assert((base + rs.take(k + 1)).last() == (def.id@, route@));
                done = base + rs.take(k + 1);
            }
            if is_under(path, route) {
                let len = route.unicode_len();
                let better = match best {
                    Some((_, n)) => len > n,
                    None => true,
                };
                if better {
                    best = Some((def.id, len));
                }
            }
            k = k + 1;
        }
        assert(rs.take(k as int) =~= rs);
        d = d + 1;
    }
    assert(dv.take(d as int) =~= dv);
    match best {
        Some((id, _)) => Some(id),
        None => None,
    }
}

/// Every name is a known module.
pub open spec fn all_known(defs: Seq<DefView>, disabled: Seq<Seq<char>>) -> bool {
    forall|i: int| 0 <= i < disabled.len() ==> def_ids(defs).contains(#[trigger] disabled[i])
}

/// No module that stays on needs one that is switched off.
pub open spec fn dependencies_kept(defs: Seq<DefView>, disabled: Seq<Seq<char>>) -> bool {
    forall|i: int, j: int|
        0 <= i < defs.len() && 0 <= j < defs[i].requires.len() && !disabled.contains(defs[i].id)
            ==> !disabled.contains(#[trigger] defs[i].requires[j])
}

/// The `disabled` list, refused when it names an unknown module or switches
/// off a module another one that stays on requires.
pub fn validate_disabled(defs: &Vec<ModuleDefinition>, disabled: &Vec<String>) -> (r: Result<Vec<String>, String>)
    ensures
        r is Ok <==> all_known(def_views(defs@), texts(disabled@)) && dependencies_kept(def_views(defs@), texts(disabled@)),
        r matches Ok(v) ==> texts(v@) == texts(disabled@),
{
    let ghost dv = def_views(defs@);
    let mut i: usize = 0;
    while i < disabled.len()
        invariant
            i <= disabled@.len(),
            dv == def_views(defs@),
            forall|k: int| 0 <= k < i ==> def_ids(dv).contains(#[trigger] texts(disabled@)[k]),
        decreases disabled@.len() - i,
    {
        let name = disabled[i].as_str();
        let mut known = false;
        let mut d: usize = 0;
        while d < defs.len()
            invariant
                d <= defs@.len(),
                dv == def_views(defs@),
                known == exists|m: int| 0 <= m < d && def_ids(dv)[m] == name@,
            decreases defs@.len() - d,
        {
            assert(def_ids(dv)[d as int] == defs@[d as int].id@);
            if text_eq(defs[d].id, name) {
                known = true;
            }
            d = d + 1;
        }
        if !known {
            let mut message = owned("unknown module \"");
            push_str(&mut message, name);
            push_str(&mut message, "\"; the modules are:");
            let mut k: usize = 0;
            while k < defs.len()
                decreases defs@.len() - k,
            {
                push_str(&mut message, " ");
                push_str(&mut message, defs[k].id);
                k = k + 1;
            }
            assert(!def_ids(dv).contains(texts(disabled@)[i as int])) by {
                if def_ids(dv).contains(texts(disabled@)[i as int]) {
                    let m = choose|m: int| 0 <= m < def_ids(dv).len() && def_ids(dv)[m] == texts(disabled@)[i as int];
                    assert(def_ids(dv)[m] == name@);
                }
            }
            return Err(message);
        }
        i = i + 1;
    }
    let mut d: usize = 0;
    while d < defs.len()
        invariant
            d <= defs@.len(),
            dv == def_views(defs@),
            forall|k: int| 0 <= k < disabled@.len() ==> def_ids(dv).contains(#[trigger] texts(disabled@)[k]),
            forall|a: int, b: int|
                0 <= a < d && 0 <= b < dv[a].requires.len() && !texts(disabled@).contains(dv[a].id)
                    ==> !texts(disabled@).contains(#[trigger] dv[a].requires[b]),
        decreases defs@.len() - d,
    {
        let def = &defs[d];
        let id_off = crate::text::contains_text(disabled, &owned(def.id));
        if !id_off {
            let mut j: usize = 0;
            while j < def.requires.len()
                invariant
                    j <= def.requires@.len(),
                    d < defs@.len(),
                    *def == defs@[d as int],
                    dv == def_views(defs@),
                    !texts(disabled@).contains(def.id@),
                    forall|b: int| 0 <= b < j ==> !texts(disabled@).contains(#[trigger] dv[d as int].requires[b]),
                decreases def.requires@.len() - j,
            {
                let needed = def.requires[j];
                if crate::text::contains_text(disabled, &owned(needed)) {
                    let mut message = owned("the ");
                    push_str(&mut message, def.id);
                    push_str(&mut message, " module needs ");
                    push_str(&mut message, needed);
                    push_str(&mut message, "; switch off ");
                    push_str(&mut message, def.id);
                    push_str(&mut message, " as well, or leave ");
                    push_str(&mut message, needed);
                    push_str(&mut message, " on");
                    assert(!dependencies_kept(dv, texts(disabled@))) by {
                        assert(dv[d as int].requires[j as int] == needed@);
                    }
                    return Err(message);
                }
                assert(dv[d as int].requires[j as int] == needed@);
                j = j + 1;
            }
        }
        assert(dv[d as int].id == def.id@);
        d = d + 1;
    }
    let mut out: Vec<String> = Vec::new();
    let mut i: usize = 0;
    while i < disabled.len()
        invariant
            i <= disabled@.len(),
            texts(out@) == texts(disabled@).take(i as int),
        decreases disabled@.len() - i,
    {
        let ghost prev = out@;
        out.push(disabled[i].clone());
        assert(texts(out@) =~= texts(prev).push(disabled@[i as int]@));
        assert(texts(out@) =~= texts(disabled@).take(i + 1));
        i = i + 1;
    }
    assert(texts(disabled@).take(i as int) =~= texts(disabled@));
    Ok(out)
}

/// Every module, in definition order, and whether it is on.
pub fn module_infos(defs: &Vec<ModuleDefinition>, disabled: &Vec<String>) -> (r: Vec<ModuleInfo>)
    ensures
        r@.len() == defs@.len(),
        forall|i: int| 0 <= i < defs@.len() ==> (#[trigger] r@[i]).id@ == defs@[i].id@ && r@[i].enabled
            == !texts(disabled@).contains(defs@[i].id@),
{
    let mut out: Vec<ModuleInfo> = Vec::new();
    let mut d: usize = 0;
    while d < defs.len()
        invariant
            d <= defs@.len(),
            out@.len() == d,
            forall|i: int| 0 <= i < d ==> (#[trigger] out@[i]).id@ == defs@[i].id@ && out@[i].enabled
                == !texts(disabled@).contains(defs@[i].id@),
        decreases defs@.len() - d,
    {
        let id = owned(defs[d].id);
        let enabled = !crate::text::contains_text(disabled, &id);
        out.push(ModuleInfo { id, enabled });
        d = d + 1;
    }
    out
}

/// The modules switched off.
pub struct ModuleRegistry {
    disabled: Vec<String>,
}

impl ModuleRegistry {
    pub closed spec fn disabled(&self) -> Seq<Seq<char>> {
        texts(self.disabled@)
    }

    /// The registry for a validated `disabled` list.
    pub fn new(defs: &Vec<ModuleDefinition>, disabled: &Vec<String>) -> (r: Result<ModuleRegistry, String>)
        ensures
            r is Ok <==> all_known(def_views(defs@), texts(disabled@)) && dependencies_kept(def_views(defs@), texts(disabled@)),
            r matches Ok(m) ==> m.disabled() == texts(disabled@),
    {
        match validate_disabled(defs, disabled) {
            Ok(list) => Ok(ModuleRegistry { disabled: list }),
            Err(e) => Err(e),
        }
    }

    pub fn is_enabled(&self, id: &str) -> (r: bool)
        ensures
            r == !self.disabled().contains(id@),
    {
        !crate::text::contains_text(&self.disabled, &owned(id))
    }

    pub fn infos(&self, defs: &Vec<ModuleDefinition>) -> (r: Vec<ModuleInfo>)
        ensures
            r@.len() == defs@.len(),
            forall|i: int| 0 <= i < defs@.len() ==> (#[trigger] r@[i]).id@ == defs@[i].id@ && r@[i].enabled
                == !self.disabled().contains(defs@[i].id@),
    {
        module_infos(defs, &self.disabled)
    }
}

} // verus!
