//! The actions that configuration can name.

use vstd::prelude::*;

use crate::actions::check_hasrole::{wanted_role, HasRole};
use crate::actions::target_http::{http_endpoint, HttpTarget};
use crate::actions::target_remote::{no_settings, RemoteTarget};
use crate::actions::ActionError;
use crate::config::decode::shape_problem;
use crate::ecmwf::check::{
    admitted_roles, date_rules, one_text, schedule_of, DateChecker, HasKey, HasLicense, Match,
    ScheduleReleased,
};
use crate::ecmwf::transform_metkit_expansion::{expansion, MetkitExpansion};
use crate::job::{empty_object, new_object};
use crate::json::{lookup, Json, Tree};
use crate::text::{cat3, cat5, join, joined, text_eq, texts};

verus! {

/// What an action does in a route.
#[derive(Debug, Clone, Copy, PartialEq, Eq, Structural)]
pub enum ActionKind {
    Check,
    Transform,
    Target,
}

/// An action that comes with the library.
#[derive(Debug, Clone, Copy, PartialEq, Eq, Structural)]
pub enum Builtin {
    /// [`HttpTarget`].
    Http,
    /// [`RemoteTarget`].
    Remote,
    /// [`HasRole`], a role in the metadata.
    HasRole,
    /// [`Match`].
    Match,
    /// [`HasLicense`].
    HasLicense,
    /// [`DateChecker`].
    DateChecker,
    /// [`HasKey`].
    HasKey,
    /// [`ScheduleReleased`].
    ScheduleReleased,
    /// [`crate::ecmwf::check::HasRole`], a role of the user's realm.
    HasRealmRole,
    /// [`MetkitExpansion`].
    MetkitExpansion,
}

/// The name of an action that comes with the library.
pub open spec fn builtin_name(builtin: Builtin) -> Seq<char> {
    match builtin {
        Builtin::Http => "http"@,
        Builtin::Remote => "remote"@,
        Builtin::HasRole => "has_role"@,
        Builtin::Match => "match"@,
        Builtin::HasLicense => "has_license"@,
        Builtin::DateChecker => "date_checker"@,
        Builtin::HasKey => "has_key"@,
        Builtin::ScheduleReleased => "schedule_released"@,
        Builtin::HasRealmRole => "has_role"@,
        Builtin::MetkitExpansion => "metkit_expansion"@,
    }
}

/// What an action that comes with the library does in a route.
pub open spec fn builtin_kind(builtin: Builtin) -> ActionKind {
    match builtin {
        Builtin::Http => ActionKind::Target,
        Builtin::Remote => ActionKind::Target,
        Builtin::MetkitExpansion => ActionKind::Transform,
        _ => ActionKind::Check,
    }
}

/// Why an action cannot be made from a configuration, if it cannot.
pub open spec fn builtin_problem(builtin: Builtin, config: Tree) -> Option<Seq<char>> {
    let (fits, target) = match builtin {
        Builtin::Http => (http_endpoint(config) is Some, "HttpTarget"@),
        Builtin::Remote => (no_settings(config), "RemoteTarget"@),
        Builtin::HasRole => (wanted_role(config) is Some, "HasRole"@),
        Builtin::Match => (config is Obj, "Match"@),
        Builtin::HasLicense => (one_text(config, "license"@) is Some, "HasLicense"@),
        Builtin::DateChecker => (date_rules(config) is Some, "DateChecker"@),
        Builtin::HasKey => (one_text(config, "key"@) is Some, "HasKey"@),
        Builtin::ScheduleReleased => (schedule_of(config) is Some, "ScheduleReleased"@),
        Builtin::HasRealmRole => (admitted_roles(config) is Some, "HasRole"@),
        Builtin::MetkitExpansion => (expansion(config) is Some, "MetkitExpansion"@),
    };
    if fits {
        None
    } else {
        Some(shape_problem(target, config))
    }
}

impl Builtin {
    pub fn name(&self) -> (r: &'static str)
        ensures
            r@ == builtin_name(*self),
    {
        match self {
            Builtin::Http => "http",
            Builtin::Remote => "remote",
            Builtin::HasRole => "has_role",
            Builtin::Match => "match",
            Builtin::HasLicense => "has_license",
            Builtin::DateChecker => "date_checker",
            Builtin::HasKey => "has_key",
            Builtin::ScheduleReleased => "schedule_released",
            Builtin::HasRealmRole => "has_role",
            Builtin::MetkitExpansion => "metkit_expansion",
        }
    }

    pub fn kind(&self) -> (r: ActionKind)
        ensures
            r == builtin_kind(*self),
    {
        match self {
            Builtin::Http => ActionKind::Target,
            Builtin::Remote => ActionKind::Target,
            Builtin::MetkitExpansion => ActionKind::Transform,
            _ => ActionKind::Check,
        }
    }

    /// Tries to make the action from a configuration.
    pub fn problem(&self, config: &Json) -> (r: Option<String>)
        ensures
            match r {
                Some(words) => builtin_problem(*self, config@) == Some(words@),
                None => builtin_problem(*self, config@) is None,
            },
    {
        match self {
            Builtin::Http => HttpTarget::from_config(config).err(),
            Builtin::Remote => RemoteTarget::from_config(config).err(),
            Builtin::HasRole => HasRole::from_config(config).err(),
            Builtin::Match => Match::from_config(config).err(),
            Builtin::HasLicense => HasLicense::from_config(config).err(),
            Builtin::DateChecker => DateChecker::from_config(config).err(),
            Builtin::HasKey => HasKey::from_config(config).err(),
            Builtin::ScheduleReleased => ScheduleReleased::from_config(config).err(),
            Builtin::HasRealmRole => crate::ecmwf::check::HasRole::from_config(config).err(),
            Builtin::MetkitExpansion => MetkitExpansion::from_config(config).err(),
        }
    }
}

/// An action that the application adds.
#[derive(Debug)]
pub struct RuntimeAction {
    pub name: String,
    pub kind: ActionKind,
    /// What the action says about itself.
    pub descriptor: Json,
}

/// The mathematical contents of a [`RuntimeAction`].
pub struct RuntimeFacts {
    pub name: Seq<char>,
    pub kind: ActionKind,
    pub descriptor: Tree,
}

impl View for RuntimeAction {
    type V = RuntimeFacts;

    open spec fn view(&self) -> RuntimeFacts {
        RuntimeFacts { name: self.name@, kind: self.kind, descriptor: self.descriptor@ }
    }
}

/// The actions that configuration can name: those of the library and those of the application.
#[derive(Debug)]
pub struct ActionCatalog {
    pub builtins: Vec<Builtin>,
    pub runtime: Vec<RuntimeAction>,
}

/// The mathematical contents of an [`ActionCatalog`].
pub struct CatalogFacts {
    pub builtins: Seq<Builtin>,
    pub runtime: Seq<RuntimeFacts>,
}

pub open spec fn runtime_facts(runtime: Seq<RuntimeAction>) -> Seq<RuntimeFacts> {
    Seq::new(runtime.len(), |i: int| runtime[i]@)
}

impl View for ActionCatalog {
    type V = CatalogFacts;

    open spec fn view(&self) -> CatalogFacts {
        CatalogFacts { builtins: self.builtins@, runtime: runtime_facts(self.runtime@) }
    }
}

/// An action of the library has a name.
pub open spec fn is_builtin(builtins: Seq<Builtin>, name: Seq<char>) -> bool {
    exists|i: int| 0 <= i < builtins.len() && builtin_name(#[trigger] builtins[i]) == name
}

/// The first action of the library with a name.
pub open spec fn builtin_called(builtins: Seq<Builtin>, name: Seq<char>) -> Option<Builtin>
    decreases builtins.len(),
{
    if builtins.len() == 0 {
        None
    } else if builtin_name(builtins[0]) == name {
        Some(builtins[0])
    } else {
        builtin_called(builtins.drop_first(), name)
    }
}

/// An action of the application has a name.
pub open spec fn is_runtime(runtime: Seq<RuntimeFacts>, name: Seq<char>) -> bool {
    exists|i: int| 0 <= i < runtime.len() && (#[trigger] runtime[i]).name == name
}

/// The first action of the application with a name.
pub open spec fn runtime_called(runtime: Seq<RuntimeFacts>, name: Seq<char>) -> Option<RuntimeFacts>
    decreases runtime.len(),
{
    if runtime.len() == 0 {
        None
    } else if runtime[0].name == name {
        Some(runtime[0])
    } else {
        runtime_called(runtime.drop_first(), name)
    }
}

/// The names of all actions, those of the library first.
pub open spec fn action_names(catalog: CatalogFacts) -> Seq<Seq<char>> {
    Seq::new(
        catalog.builtins.len() + catalog.runtime.len(),
        |i: int|
            if i < catalog.builtins.len() {
                builtin_name(catalog.builtins[i])
            } else {
                catalog.runtime[i - catalog.builtins.len()].name
            },
    )
}

/// An action that was made: what it does in a route and what it says about itself.
pub struct Created {
    pub kind: ActionKind,
    pub descriptor: Json,
}

/// What making an action comes to, or the words in which it is refused. The application's actions
/// come first; their own settings are their own business.
pub open spec fn created(catalog: CatalogFacts, name: Seq<char>, config: Tree) -> Result<
    (ActionKind, Tree),
    Seq<char>,
> {
    match runtime_called(catalog.runtime, name) {
        Some(action) => Ok((action.kind, action.descriptor)),
        None => match builtin_called(catalog.builtins, name) {
            Some(builtin) => match builtin_problem(builtin, config) {
                Some(problem) => Err(problem),
                None => Ok((builtin_kind(builtin), empty_object())),
            },
            None => Err(
                "Unknown action: '"@ + name + "'. Available actions: ["@ + joined(
                    action_names(catalog),
                    ", "@,
                ) + "]"@,
            ),
        },
    }
}

impl ActionCatalog {
    /// The actions that every broker has.
    pub fn builtin() -> (catalog: ActionCatalog)
        ensures
            catalog@.builtins == seq![Builtin::HasRole, Builtin::Http, Builtin::Remote],
            catalog@.runtime.len() == 0,
    {
        let catalog = ActionCatalog {
            builtins: vec![Builtin::HasRole, Builtin::Http, Builtin::Remote],
            runtime: Vec::new(),
        };
        assert(catalog.builtins@ =~= seq![Builtin::HasRole, Builtin::Http, Builtin::Remote]);
        catalog
    }

    /// The actions of a broker in front of meteorological archives.
    pub fn ecmwf() -> (catalog: ActionCatalog)
        ensures
            catalog@.builtins == seq![
                Builtin::Http,
                Builtin::Remote,
                Builtin::Match,
                Builtin::HasLicense,
                Builtin::DateChecker,
                Builtin::HasKey,
                Builtin::ScheduleReleased,
                Builtin::HasRealmRole,
                Builtin::MetkitExpansion,
            ],
            catalog@.runtime.len() == 0,
    {
        let catalog = ActionCatalog {
            builtins: vec![
                Builtin::Http,
                Builtin::Remote,
                Builtin::Match,
                Builtin::HasLicense,
                Builtin::DateChecker,
                Builtin::HasKey,
                Builtin::ScheduleReleased,
                Builtin::HasRealmRole,
                Builtin::MetkitExpansion,
            ],
            runtime: Vec::new(),
        };
        assert(catalog.builtins@ =~= seq![
            Builtin::Http,
            Builtin::Remote,
            Builtin::Match,
            Builtin::HasLicense,
            Builtin::DateChecker,
            Builtin::HasKey,
            Builtin::ScheduleReleased,
            Builtin::HasRealmRole,
            Builtin::MetkitExpansion,
        ]);
        catalog
    }

    fn find_builtin(&self, name: &str) -> (r: Option<Builtin>)
        ensures
            r == builtin_called(self@.builtins, name@),
            r is Some == is_builtin(self@.builtins, name@),
    {
        let ghost all = self@.builtins;
        let mut i: usize = 0;
        assert(all.skip(0) =~= all);
        while i < self.builtins.len()
            invariant
                i <= self.builtins@.len(),
                all == self.builtins@,
                builtin_called(all, name@) == builtin_called(all.skip(i as int), name@),
                forall|k: int| 0 <= k < i ==> builtin_name(#[trigger] all[k]) != name@,
            decreases self.builtins@.len() - i,
        {
            assert(all.skip(i as int)[0] == all[i as int]);
            if text_eq(self.builtins[i].name(), name) {
                return Some(self.builtins[i]);
            }
            assert(all.skip(i as int).drop_first() =~= all.skip(i + 1));
            i = i + 1;
        }
        None
    }

    fn find_runtime(&self, name: &str) -> (r: Option<&RuntimeAction>)
        ensures
            match r {
                Some(action) => runtime_called(self@.runtime, name@) == Some(action@),
                None => runtime_called(self@.runtime, name@) is None,
            },
            r is Some == is_runtime(self@.runtime, name@),
    {
        let ghost all = self@.runtime;
        let mut i: usize = 0;
        assert(all.skip(0) =~= all);
        while i < self.runtime.len()
            invariant
                i <= self.runtime@.len(),
                all == runtime_facts(self.runtime@),
                runtime_called(all, name@) == runtime_called(all.skip(i as int), name@),
                forall|k: int| 0 <= k < i ==> (#[trigger] all[k]).name != name@,
            decreases self.runtime@.len() - i,
        {
            assert(all.skip(i as int)[0] == all[i as int]);
            if text_eq(&self.runtime[i].name, name) {
                assert(all[i as int].name == name@);
                return Some(&self.runtime[i]);
            }
            assert(all.skip(i as int).drop_first() =~= all.skip(i + 1));
            i = i + 1;
        }
        None
    }

    /// Adds an action of the application. Names of the library and names that are taken are
    /// refused.
    pub fn register_runtime_action(&mut self, action: RuntimeAction) -> (r: Result<(), ActionError>)
        ensures
            final(self)@.builtins == old(self)@.builtins,
            if is_builtin(old(self)@.builtins, action@.name) {
                r matches Err(ActionError::ConfigError(m)) && m@ == "Cannot register '"@
                    + action@.name + "': conflicts with a built-in action"@ && final(self)@.runtime
                    == old(self)@.runtime
            } else if is_runtime(old(self)@.runtime, action@.name) {
                r matches Err(ActionError::ConfigError(m)) && m@ == "Cannot register '"@
                    + action@.name + "': already registered as a runtime action"@ && final(self)@.runtime == old(self)@.runtime
            } else {
                r is Ok && final(self)@.runtime == old(self)@.runtime.push(action@)
            },
    {
        if self.find_builtin(&action.name).is_some() {
            return Err(
                ActionError::ConfigError(
                    cat3(
                        "Cannot register '",
                        &action.name,
                        "': conflicts with a built-in action",
                    ),
                ),
            );
        }
        if self.find_runtime(&action.name).is_some() {
            return Err(
                ActionError::ConfigError(
                    cat3(
                        "Cannot register '",
                        &action.name,
                        "': already registered as a runtime action",
                    ),
                ),
            );
        }
        let ghost facts = action@;
        self.runtime.push(action);
        assert(self@.runtime =~= old(self)@.runtime.push(facts));
        Ok(())
    }

    /// The names of all actions.
    pub fn list_actions(&self) -> (names: Vec<String>)
        ensures
            texts(names@) == action_names(self@),
    {
        let mut names: Vec<String> = Vec::new();
        let mut i: usize = 0;
        while i < self.builtins.len()
            invariant
                i <= self.builtins@.len(),
                names@.len() == i,
                forall|k: int|
                    0 <= k < i ==> (#[trigger] names@[k])@ == builtin_name(self.builtins@[k]),
            decreases self.builtins@.len() - i,
        {
            names.push(self.builtins[i].name().to_owned());
            i = i + 1;
        }
        let mut j: usize = 0;
        while j < self.runtime.len()
            invariant
                j <= self.runtime@.len(),
                names@.len() == self.builtins@.len() + j,
                forall|k: int|
                    0 <= k < self.builtins@.len() ==> (#[trigger] names@[k])@ == builtin_name(
                        self.builtins@[k],
                    ),
                forall|k: int|
                    self.builtins@.len() <= k < names@.len() ==> (#[trigger] names@[k])@
                        == self.runtime@[k - self.builtins@.len()].name@,
            decreases self.runtime@.len() - j,
        {
            names.push(self.runtime[j].name.clone());
            j = j + 1;
        }
        assert(texts(names@) =~= action_names(self@));
        names
    }

    /// Makes an action by its name.
    pub fn create_action(&self, name: &str, config: &Json) -> (r: Result<Created, ActionError>)
        ensures
            match r {
                Ok(made) => created(self@, name@, config@) == Ok::<(ActionKind, Tree), Seq<char>>(
                    (made.kind, made.descriptor@),
                ),
                Err(e) => e matches ActionError::ConfigError(m) && created(self@, name@, config@)
                    == Err::<(ActionKind, Tree), Seq<char>>(m@),
            },
    {
        match self.find_runtime(name) {
            Some(action) => {
                return Ok(Created { kind: action.kind, descriptor: action.descriptor.copy() });
            },
            None => {},
        }
        match self.find_builtin(name) {
            Some(builtin) => match builtin.problem(config) {
                Some(problem) => Err(ActionError::ConfigError(problem)),
                None => Ok(Created { kind: builtin.kind(), descriptor: new_object() }),
            },
            None => {
                let available = self.list_actions();
                Err(
                    ActionError::ConfigError(
                        cat5(
                            "Unknown action: '",
                            name,
                            "'. Available actions: [",
                            &join(&available, ", "),
                            "]",
                        ),
                    ),
                )
            },
        }
    }
}

/// An action that was registered can be made, whatever its settings, and no registration changes
/// what the actions before it come to.
pub proof fn law_registered_actions_are_found(
    before: CatalogFacts,
    action: RuntimeFacts,
    after: CatalogFacts,
    other: Seq<char>,
    config: Tree,
)
    requires
        !is_builtin(before.builtins, action.name),
        !is_runtime(before.runtime, action.name),
        after.builtins == before.builtins,
        after.runtime == before.runtime.push(action),
    ensures
        created(after, action.name, config) == Ok::<(ActionKind, Tree), Seq<char>>(
            (action.kind, action.descriptor),
        ),
        created(before, other, config) is Ok ==> created(after, other, config) == created(
            before,
            other,
            config,
        ),
        action_names(after).contains(action.name),
{
    lemma_runtime_pushed(before.runtime, action, action.name);
    lemma_runtime_pushed(before.runtime, action, other);
    lemma_builtin_called(before.builtins, action.name);
    lemma_runtime_called(before.runtime, action.name);
    let n = action_names(after).len() - 1;
    assert(action_names(after)[n] == action.name);
}

proof fn lemma_builtin_called(builtins: Seq<Builtin>, name: Seq<char>)
    ensures
        builtin_called(builtins, name) is Some == is_builtin(builtins, name),
    decreases builtins.len(),
{
    if builtins.len() > 0 {
        let rest = builtins.drop_first();
        lemma_builtin_called(rest, name);
        if is_builtin(builtins, name) && builtin_name(builtins[0]) != name {
            let i = choose|i: int|
                0 <= i < builtins.len() && builtin_name(#[trigger] builtins[i]) == name;
            assert(rest[i - 1] == builtins[i]);
        }
        if is_builtin(rest, name) {
            let i = choose|i: int| 0 <= i < rest.len() && builtin_name(#[trigger] rest[i]) == name;
            assert(builtins[i + 1] == rest[i]);
        }
        if builtin_name(builtins[0]) == name {
            assert(is_builtin(builtins, name));
        }
    }
}

proof fn lemma_runtime_called(runtime: Seq<RuntimeFacts>, name: Seq<char>)
    ensures
        runtime_called(runtime, name) is Some == is_runtime(runtime, name),
    decreases runtime.len(),
{
    if runtime.len() > 0 {
        let rest = runtime.drop_first();
        lemma_runtime_called(rest, name);
        if is_runtime(runtime, name) && runtime[0].name != name {
            let i = choose|i: int| 0 <= i < runtime.len() && (#[trigger] runtime[i]).name == name;
            assert(rest[i - 1] == runtime[i]);
        }
        if is_runtime(rest, name) {
            let i = choose|i: int| 0 <= i < rest.len() && (#[trigger] rest[i]).name == name;
            assert(runtime[i + 1] == rest[i]);
        }
        if runtime[0].name == name {
            assert(is_runtime(runtime, name));
        }
    }
}

proof fn lemma_runtime_pushed(runtime: Seq<RuntimeFacts>, action: RuntimeFacts, name: Seq<char>)
    ensures
        runtime_called(runtime.push(action), name) == if runtime_called(runtime, name) is Some {
            runtime_called(runtime, name)
        } else if action.name == name {
            Some(action)
        } else {
            None
        },
    decreases runtime.len(),
{
    let after = runtime.push(action);
    if runtime.len() > 0 {
        lemma_runtime_pushed(runtime.drop_first(), action, name);
        assert(after.drop_first() =~= runtime.drop_first().push(action));
        assert(after[0] == runtime[0]);
    } else {
        assert(after.drop_first() =~= Seq::<RuntimeFacts>::empty());
        assert(after[0] == action);
        assert(runtime_called(after.drop_first(), name) is None);
    }
}

/// An action is made by its name. The application's actions come first and take any settings. An
/// action of the library is of its own kind, says nothing about itself, and is refused where its
/// settings do not fit. A name that nothing bears is refused in words that list all names.
pub proof fn law_actions_are_made_by_name(
    catalog: CatalogFacts,
    name: Seq<char>,
    config: Tree,
    i: int,
)
    ensures
        0 <= i < catalog.runtime.len() && catalog.runtime[i].name == name && (forall|k: int|
            0 <= k < i ==> (#[trigger] catalog.runtime[k]).name != name) ==> created(
            catalog,
            name,
            config,
        ) == Ok::<(ActionKind, Tree), Seq<char>>(
            (catalog.runtime[i].kind, catalog.runtime[i].descriptor),
        ),
        (forall|k: int| 0 <= k < catalog.runtime.len() ==> (#[trigger] catalog.runtime[k]).name
            != name) && (forall|k: int|
            0 <= k < catalog.builtins.len() ==> builtin_name(#[trigger] catalog.builtins[k])
                != name) ==> created(catalog, name, config) == Err::<(ActionKind, Tree), Seq<char>>(
            "Unknown action: '"@ + name + "'. Available actions: ["@ + joined(
                action_names(catalog),
                ", "@,
            ) + "]"@,
        ),
        0 <= i < catalog.builtins.len() && builtin_name(catalog.builtins[i]) == name && (forall|k:
            int| 0 <= k < catalog.runtime.len() ==> (#[trigger] catalog.runtime[k]).name != name)
            && (forall|k: int|
            0 <= k < i ==> builtin_name(#[trigger] catalog.builtins[k]) != name) ==> match created(
            catalog,
            name,
            config,
        ) {
            Ok((kind, told)) => {
                &&& told == empty_object()
                &&& kind == ActionKind::Target <==> catalog.builtins[i] is Http
                    || catalog.builtins[i] is Remote
                &&& kind == ActionKind::Transform <==> catalog.builtins[i] is MetkitExpansion
                &&& builtin_problem(catalog.builtins[i], config) is None
            },
            Err(words) => builtin_problem(catalog.builtins[i], config) == Some(words),
        },
{
    lemma_runtime_called(catalog.runtime, name);
    lemma_builtin_called(catalog.builtins, name);
    lemma_first_runtime(catalog.runtime, name, i);
    lemma_first_builtin(catalog.builtins, name, i);
}

proof fn lemma_first_runtime(runtime: Seq<RuntimeFacts>, name: Seq<char>, i: int)
    ensures
        0 <= i < runtime.len() && runtime[i].name == name && (forall|k: int|
            0 <= k < i ==> (#[trigger] runtime[k]).name != name) ==> runtime_called(runtime, name)
            == Some(runtime[i]),
    decreases runtime.len(),
{
    if 0 < i < runtime.len() && (forall|k: int| 0 <= k < i ==> (#[trigger] runtime[k]).name != name) {
        let rest = runtime.drop_first();
        lemma_first_runtime(rest, name, i - 1);
        assert forall|k: int| 0 <= k < i - 1 implies (#[trigger] rest[k]).name != name by {
            assert(rest[k] == runtime[k + 1]);
        }
        assert(runtime[0].name != name);
    }
}

proof fn lemma_first_builtin(builtins: Seq<Builtin>, name: Seq<char>, i: int)
    ensures
        0 <= i < builtins.len() && builtin_name(builtins[i]) == name && (forall|k: int|
            0 <= k < i ==> builtin_name(#[trigger] builtins[k]) != name) ==> builtin_called(
            builtins,
            name,
        ) == Some(builtins[i]),
    decreases builtins.len(),
{
    if 0 < i < builtins.len() && (forall|k: int|
        0 <= k < i ==> builtin_name(#[trigger] builtins[k]) != name) {
        let rest = builtins.drop_first();
        lemma_first_builtin(rest, name, i - 1);
        assert forall|k: int| 0 <= k < i - 1 implies builtin_name(#[trigger] rest[k]) != name by {
            assert(rest[k] == builtins[k + 1]);
        }
        assert(builtin_name(builtins[0]) != name);
    }
}

/// Names are listed once for each action, those of the library before those of the application.
pub proof fn law_names_are_listed_in_order(catalog: CatalogFacts, i: int)
    requires
        0 <= i,
    ensures
        action_names(catalog).len() == catalog.builtins.len() + catalog.runtime.len(),
        i < catalog.builtins.len() ==> action_names(catalog)[i] == builtin_name(
            catalog.builtins[i],
        ),
        i < catalog.runtime.len() ==> action_names(catalog)[catalog.builtins.len() + i]
            == catalog.runtime[i].name,
{
}

/// The actions of the library that take a single setting need it as what it is, those that match
/// need a map, and a remote target takes none.
pub proof fn law_settings_must_fit_the_action(members: Seq<(Seq<char>, Tree)>, config: Tree)
    ensures
        builtin_problem(Builtin::HasRole, Tree::Obj(members)) is None <==> (lookup(
            members,
            "role"@,
        ) matches Some(Tree::Str(_))),
        builtin_problem(Builtin::HasLicense, Tree::Obj(members)) is None <==> (lookup(
            members,
            "license"@,
        ) matches Some(Tree::Str(_))),
        builtin_problem(Builtin::HasKey, Tree::Obj(members)) is None <==> (lookup(
            members,
            "key"@,
        ) matches Some(Tree::Str(_))),
        builtin_problem(Builtin::MetkitExpansion, Tree::Obj(members)) is None <==> (lookup(
            members,
            "expand_parameters"@,
        ) matches Some(Tree::Bool(_))),
        builtin_problem(Builtin::Match, config) is None <==> config is Obj,
        builtin_problem(Builtin::Remote, config) is None <==> config is Null || (config
            matches Tree::Obj(all) && all.len() == 0),
        builtin_problem(Builtin::Http, config) is None <==> http_endpoint(config) is Some,
        builtin_problem(Builtin::DateChecker, config) is None <==> date_rules(config) is Some,
        builtin_problem(Builtin::ScheduleReleased, config) is None <==> schedule_of(config) is Some,
        builtin_problem(Builtin::HasRealmRole, config) is None <==> admitted_roles(config) is Some,
{
}

} // verus!
