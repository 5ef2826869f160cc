//! The Agent's switchable modules and the request paths each owns. Paths
//! that belong to no module (health, info, events, jobs, modules, and the
//! capabilities report) are the always-on core.

use vstd::prelude::*;

use crate::agent::events::text_eq;
use crate::modules::{
    DefView, ModuleDefinition, ModuleManifest, all_known, def_views, dependencies_kept, module_owner,
    owner, str_views,
};
use crate::text::texts;

verus! {

/// A module with one route and the given dependencies.
pub fn single_route(id: &'static str, needs: Vec<&'static str>, route: &'static str) -> (r: ModuleDefinition)
    ensures
        r@ == (DefView { id: id@, requires: str_views(needs@), routes: seq![route@] }),
{
    let mut routes: Vec<&'static str> = Vec::new();
    routes.push(route);
    let r = ModuleDefinition { id, requires: needs, routes };
    assert(str_views(r.routes@) =~= seq![route@]);
    r
}

/// The definition of a module with one route and no dependencies.
pub open spec fn plain(id: Seq<char>, route: Seq<char>) -> DefView {
    DefView { id, requires: seq![], routes: seq![route] }
}

/// The Agent's modules: system, power, update, storage, diagnostics,
/// backups, services, schedules (which needs services) and software.
pub open spec fn agent_modules() -> Seq<DefView> {
    seq![
        plain("system"@, "/v1/system"@),
        plain("power"@, "/v1/system/reboot"@),
        plain("update"@, "/v1/system/update"@),
        plain("storage"@, "/v1/storage"@),
        plain("diagnostics"@, "/v1/diagnostics"@),
        plain("backups"@, "/v1/backups"@),
        plain("services"@, "/v1/services"@),
        DefView { id: "schedules"@, requires: seq!["services"@], routes: seq!["/v1/schedules"@] },
        plain("software"@, "/v1/software"@),
    ]
}

pub fn definitions() -> (r: Vec<ModuleDefinition>)
    ensures
        def_views(r@) == agent_modules(),
{
    let mut defs: Vec<ModuleDefinition> = Vec::new();
    defs.push(single_route("system", Vec::new(), "/v1/system"));
    defs.push(single_route("power", Vec::new(), "/v1/system/reboot"));
    defs.push(single_route("update", Vec::new(), "/v1/system/update"));
    defs.push(single_route("storage", Vec::new(), "/v1/storage"));
    defs.push(single_route("diagnostics", Vec::new(), "/v1/diagnostics"));
    defs.push(single_route("backups", Vec::new(), "/v1/backups"));
    defs.push(single_route("services", Vec::new(), "/v1/services"));
    let mut needs: Vec<&'static str> = Vec::new();
    needs.push("services");
    defs.push(single_route("schedules", needs, "/v1/schedules"));
    defs.push(single_route("software", Vec::new(), "/v1/software"));
    assert(str_views(Seq::<&'static str>::empty()) =~= Seq::<Seq<char>>::empty());
    assert(str_views(seq!["services"]) =~= seq!["services"@]);
    assert(def_views(defs@) =~= agent_modules());
    defs
}

/// Paths inside a module's prefix that belong to no module.
pub const CAPABILITIES_PATH: &'static str = "/v1/system/capabilities";

/// Which modules of the Agent are switched off.
pub struct ModuleRegistry {
    inner: crate::modules::ModuleRegistry,
}

impl ModuleRegistry {
    pub closed spec fn disabled(&self) -> Seq<Seq<char>> {
        self.inner.disabled()
    }

    /// Builds the registry from the `disabled` list, refusing a typo or a
    /// module whose dependency is switched off.
    pub fn new(disabled: &Vec<String>) -> (r: Result<ModuleRegistry, String>)
        ensures
            ({
                let defs = agent_modules();
                r is Ok <==> all_known(defs, texts(disabled@)) && dependencies_kept(defs, texts(disabled@))
            }),
            r matches Ok(m) ==> m.disabled() == texts(disabled@),
    {
        let defs = definitions();
        match crate::modules::ModuleRegistry::new(&defs, disabled) {
            Ok(inner) => Ok(ModuleRegistry { inner }),
            Err(e) => Err(e),
        }
    }

    pub fn is_enabled(&self, id: &str) -> (r: bool)
        ensures
            r == !self.disabled().contains(id@),
    {
        self.inner.is_enabled(id)
    }

    /// The module that owns `path`, if any (the longest route prefix); the
    /// capabilities report belongs to none.
    pub fn owner_of(path: &str) -> (r: Option<&'static str>)
        ensures
            path@ == CAPABILITIES_PATH@ ==> r is None,
            path@ != CAPABILITIES_PATH@ ==> match owner(agent_modules(), path@) {
                Some(id) => r matches Some(s) && s@ == id,
                None => r is None,
            },
    {
        if text_eq(path, CAPABILITIES_PATH) {
            return None;
        }
        let defs = definitions();
        module_owner(&defs, path)
    }

    pub fn manifest(&self) -> (r: ModuleManifest)
        ensures
            r.modules@.len() == 9,
            forall|i: int| 0 <= i < 9 ==> (#[trigger] r.modules@[i]).id@ == agent_modules()[i].id
                && r.modules@[i].enabled == !self.disabled().contains(agent_modules()[i].id),
    {
        let defs = definitions();
        assert(def_views(defs@).len() == defs@.len());
        assert forall|i: int| 0 <= i < defs@.len() implies defs@[i].id@ == agent_modules()[i].id by {
            assert(def_views(defs@)[i] == defs@[i]@);
        }
        ModuleManifest { modules: self.inner.infos(&defs) }
    }
}

} // verus!
