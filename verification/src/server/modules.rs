//! The Server's own switchable modules: audit, realtime metrics,
//! notifications and the update check. The `DECKOX_DISABLED_MODULES`
//! environment variable, when it names any module, takes precedence over
//! `[modules] disabled` in `server.toml`.

use vstd::prelude::*;

use crate::agent::modules::{plain, single_route};
use crate::modules::{
    DefView, ModuleDefinition, ModuleInfo, all_known, def_views, dependencies_kept, module_owner, owner,
};
use crate::text::{chars_of, filter_map, lemma_filter_map_step, spans_are, split, split_char, string_of, texts, trim, trim_span};

verus! {

/// The Server's modules.
pub open spec fn server_modules() -> Seq<DefView> {
    seq![
        plain("audit"@, "/api/v1/audit"@),
        plain("realtime"@, "/api/v1/events/metrics"@),
        plain("notifications"@, "/api/v1/settings/webhook"@),
        plain("update-check"@, "/api/v1/update"@),
    ]
}

pub fn definitions() -> (r: Vec<ModuleDefinition>)
    ensures
        def_views(r@) == server_modules(),
{
    let mut defs: Vec<ModuleDefinition> = Vec::new();
    defs.push(single_route("audit", Vec::new(), "/api/v1/audit"));
    defs.push(single_route("realtime", Vec::new(), "/api/v1/events/metrics"));
    defs.push(single_route("notifications", Vec::new(), "/api/v1/settings/webhook"));
    defs.push(single_route("update-check", Vec::new(), "/api/v1/update"));
    assert(crate::modules::str_views(Seq::<&'static str>::empty()) =~= Seq::<Seq<char>>::empty());
    assert(def_views(defs@) =~= server_modules());
    defs
}

/// A comma-separated list's names: trimmed, empty ones left out.
pub open spec fn listed_names(text: Seq<char>) -> Seq<Seq<char>> {
    filter_map(split(text, ','), |p: Seq<char>| if trim(p).len() > 0 {
        Some(trim(p))
    } else {
        None
    })
}

/// The names from the environment when it lists any, else the file's.
pub open spec fn resolved(from_environment: Option<Seq<char>>, from_file: Seq<Seq<char>>) -> Seq<Seq<char>> {
    let listed = match from_environment {
        Some(text) => listed_names(text),
        None => seq![],
    };
    if listed.len() == 0 {
        from_file
    } else {
        listed
    }
}

/// The environment wins when it names any module; otherwise the file's
/// list applies.
pub fn resolve(from_environment: Option<&str>, from_file: Vec<String>) -> (r: Vec<String>)
    ensures
        texts(r@) == resolved(
            match from_environment {
                Some(t) => Some(t@),
                None => None,
            },
            texts(from_file@),
        ),
{
    let text = match from_environment {
        Some(t) => t,
        None => "",
    };
    let v = chars_of(text);
    let parts = split_char(&v, 0, v.len(), ',');
    assert(v@.subrange(0, v@.len() as int) =~= text@);
    let ghost ps = split(text@, ',');
    let ghost f = |p: Seq<char>| if trim(p).len() > 0 {
        Some(trim(p))
    } else {
        None
    };
    let mut listed: Vec<String> = Vec::new();
    let mut k: usize = 0;
    while k < parts.len()
        invariant
            spans_are(v@, parts@, ps),
            ps == split(text@, ','),
            f == (|p: Seq<char>| if trim(p).len() > 0 {
                Some(trim(p))
            } else {
                None
            }),
            k <= parts@.len(),
            texts(listed@) == filter_map(ps.take(k as int), f),
        decreases parts@.len() - k,
    {
        proof {
            lemma_filter_map_step(ps, k as int, f);
        }
        let (a, b) = parts[k];
        let (s, e) = trim_span(&v, a, b);
        if s < e {
            let ghost prev = listed@;
            listed.push(string_of(&v, s, e));
            assert(texts(listed@) =~= texts(prev).push(v@.subrange(s as int, e as int)));
        }
        k = k + 1;
    }
    assert(ps.take(parts@.len() as int) =~= ps);
    proof {
        assert(listed_names(text@) == filter_map(ps, f)) by {
            assert(f =~= (|p: Seq<char>| if trim(p).len() > 0 {
                Some(trim(p))
            } else {
                None
            }));
        }
        if from_environment is None {
            reveal_strlit("");
            assert(text@ =~= Seq::<char>::empty());
            assert(ps =~= seq![Seq::<char>::empty()]);
            assert(trim(Seq::<char>::empty()) =~= Seq::<char>::empty());
            assert(ps.drop_last() =~= Seq::<Seq<char>>::empty());
            assert(filter_map(ps.drop_last(), f).len() == 0);
            assert(ps.last() == Seq::<char>::empty());
            assert(f(ps.last()) is None);
            assert(filter_map(ps, f).len() == 0);
        }
    }
    if listed.len() == 0 {
        from_file
    } else {
        listed
    }
}

/// Which of the Server's modules are switched off.
pub struct ModuleRegistry {
    inner: crate::modules::ModuleRegistry,
}

impl ModuleRegistry {
    pub closed spec fn disabled(&self) -> Seq<Seq<char>> {
        self.inner.disabled()
    }

    pub fn new(disabled: &Vec<String>) -> (r: Result<ModuleRegistry, String>)
        ensures
            r is Ok <==> all_known(server_modules(), texts(disabled@)) && dependencies_kept(
                server_modules(),
                texts(disabled@),
            ),
            r matches Ok(m) ==> m.disabled() == texts(disabled@),
    {
        let defs = definitions();
        match crate::modules::ModuleRegistry::new(&defs, disabled) {
            Ok(inner) => Ok(ModuleRegistry { inner }),
            Err(e) => Err(e),
        }
    }

    pub fn is_enabled(&self, id: &str) -> (r: bool)
        ensures
            r == !self.disabled().contains(id@),
    {
        self.inner.is_enabled(id)
    }

    pub fn infos(&self) -> (r: Vec<ModuleInfo>)
        ensures
            r@.len() == 4,
            forall|i: int| 0 <= i < 4 ==> (#[trigger] r@[i]).id@ == server_modules()[i].id
                && r@[i].enabled == !self.disabled().contains(server_modules()[i].id),
    {
        let defs = definitions();
        assert(def_views(defs@).len() == defs@.len());
        assert forall|i: int| 0 <= i < defs@.len() implies defs@[i].id@ == server_modules()[i].id by {
            assert(def_views(defs@)[i] == defs@[i]@);
        }
        self.inner.infos(&defs)
    }

    /// The module that owns `path` (written in full, under `/api/v1`).
    pub fn owner_of(path: &str) -> (r: Option<&'static str>)
        ensures
            match owner(server_modules(), path@) {
                Some(id) => r matches Some(s) && s@ == id,
                None => r is None,
            },
    {
        let defs = definitions();
        module_owner(&defs, path)
    }
}

} // verus!
