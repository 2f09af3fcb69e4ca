//! Configuration that applies to a namespace or to all.

use vstd::prelude::*;

use crate::extensions::extensions::EgressPolicies;
use crate::index::{ids_of, lemma_rebound, lemma_rebound_unique, rebound, Index};
use crate::labels::{base64_text, encode_labels, label_views, labels_text};
use crate::table::{lists, Table};
use crate::text::{opt_view, views};

verus! {

/// The actor that a workload works for.
#[derive(Clone, Debug, PartialEq, Eq)]
pub struct ActorContext {
    pub actor_uid: String,
    pub actor_name: String,
    pub atespace: String,
    pub generation: u64,
    pub labels: Vec<(String, String)>,
    pub encoded_labels: String,
}

/// An actor as the control plane sends it. No name stands in the labels twice.
#[derive(Clone, Debug, PartialEq, Eq)]
pub struct ActorContextMessage {
    pub actor_uid: String,
    pub actor_name: String,
    pub atespace: String,
    pub generation: u64,
    pub labels: Vec<(String, String)>,
}

/// Why an actor is not accepted.
#[derive(Clone, Copy, Debug, PartialEq, Eq, Structural)]
pub enum ActorContextError {
    /// An actor requires an identifier.
    MissingUid,
    /// An actor requires a name.
    MissingName,
    /// An actor requires a space.
    MissingAtespace,
    /// An actor's generation must be non-zero.
    ZeroGeneration,
}

/// What is wrong with an actor.
pub open spec fn actor_fault(message: ActorContextMessage) -> Option<ActorContextError> {
    if message.actor_uid@.len() == 0 {
        Some(ActorContextError::MissingUid)
    } else if message.actor_name@.len() == 0 {
        Some(ActorContextError::MissingName)
    } else if message.atespace@.len() == 0 {
        Some(ActorContextError::MissingAtespace)
    } else if message.generation == 0 {
        Some(ActorContextError::ZeroGeneration)
    } else {
        None
    }
}

impl ActorContextError {
    /// The error in words.
    pub open spec fn described(self) -> Seq<char> {
        match self {
            ActorContextError::MissingUid => "ActorContext actor_uid is required"@,
            ActorContextError::MissingName => "ActorContext actor_name is required"@,
            ActorContextError::MissingAtespace => "ActorContext atespace is required"@,
            ActorContextError::ZeroGeneration => "ActorContext generation must be non-zero"@,
        }
    }

    /// The error in words.
    pub fn message(&self) -> (r: &'static str)
        ensures
            r@ == self.described(),
    {
        match self {
            ActorContextError::MissingUid => "ActorContext actor_uid is required",
            ActorContextError::MissingName => "ActorContext actor_name is required",
            ActorContextError::MissingAtespace => "ActorContext atespace is required",
            ActorContextError::ZeroGeneration => "ActorContext generation must be non-zero",
        }
    }
}

impl ActorContext {
    /// The actor that the control plane sent, with its labels in one text.
    pub fn try_from(message: ActorContextMessage) -> (r: Result<ActorContext, ActorContextError>)
        ensures
            match r {
                Ok(actor) => {
                    &&& actor_fault(message) is None
                    &&& actor.actor_uid == message.actor_uid
                    &&& actor.actor_name == message.actor_name
                    &&& actor.atespace == message.atespace
                    &&& actor.generation == message.generation
                    &&& actor.labels == message.labels
                    &&& actor.encoded_labels@ == base64_text(
                        labels_text(label_views(message.labels@)),
                    )
                },
                Err(e) => actor_fault(message) == Some(e),
            },
    {
        if message.actor_uid.is_empty() {
            return Err(ActorContextError::MissingUid);
        }
        if message.actor_name.is_empty() {
            return Err(ActorContextError::MissingName);
        }
        if message.atespace.is_empty() {
            return Err(ActorContextError::MissingAtespace);
        }
        if message.generation == 0 {
            return Err(ActorContextError::ZeroGeneration);
        }
        let encoded_labels: String = encode_labels(&message.labels);
        Ok(
            ActorContext {
                actor_uid: message.actor_uid,
                actor_name: message.actor_name,
                atespace: message.atespace,
                generation: message.generation,
                labels: message.labels,
                encoded_labels,
            },
        )
    }
}

/// Where a configuration applies.
#[derive(Clone, Copy, Debug, PartialEq, Eq, Structural)]
pub enum WorkloadConfigScope {
    Global,
    Namespace,
}

/// A configuration.
#[derive(Clone, Debug, PartialEq, Eq)]
pub struct WorkloadConfigData {
    pub egress_policies: EgressPolicies,
    pub actor_context: Option<ActorContext>,
}

/// The configurations by key, the namespace that each is found under, and the keys
/// of each namespace. What applies to all is found under the empty namespace.
pub struct ConfigModel {
    pub by_key: Map<Seq<char>, WorkloadConfigData>,
    pub namespaces: Map<Seq<char>, Seq<char>>,
    pub by_namespace: Map<Seq<char>, Seq<Seq<char>>>,
}

/// The namespace that a key is found under.
pub open spec fn found_under(model: ConfigModel, key: Seq<char>) -> Option<Seq<char>> {
    if model.namespaces.dom().contains(key) {
        Some(model.namespaces[key])
    } else {
        None
    }
}

/// Each key is found under one namespace, once.
pub open spec fn consistent(model: ConfigModel) -> bool {
    &&& model.by_key.dom() == model.namespaces.dom()
    &&& forall|ns: Seq<char>| #[trigger]
        model.by_namespace.dom().contains(ns) ==> model.by_namespace[ns].len() > 0
            && model.by_namespace[ns].no_duplicates()
    &&& forall|ns: Seq<char>, key: Seq<char>|
        #![trigger ids_of(model.by_namespace, ns).contains(key)]
        ids_of(model.by_namespace, ns).contains(key) == (found_under(model, key) == Some(ns))
}

/// The namespace that a configuration of this scope is found under.
pub open spec fn scope_namespace(scope: WorkloadConfigScope, namespace: Seq<char>) -> Seq<char> {
    match scope {
        WorkloadConfigScope::Global => Seq::empty(),
        WorkloadConfigScope::Namespace => namespace,
    }
}

/// The store without a key.
pub open spec fn removed(model: ConfigModel, key: Seq<char>) -> ConfigModel {
    ConfigModel {
        by_key: model.by_key.remove(key),
        namespaces: model.namespaces.remove(key),
        by_namespace: rebound(model.by_namespace, found_under(model, key), None, key),
    }
}

/// The store with a configuration in place of the one of the same key.
pub open spec fn inserted(
    model: ConfigModel,
    key: Seq<char>,
    namespace: Seq<char>,
    data: WorkloadConfigData,
) -> ConfigModel {
    let before = removed(model, key);
    ConfigModel {
        by_key: before.by_key.insert(key, data),
        namespaces: before.namespaces.insert(key, namespace),
        by_namespace: rebound(before.by_namespace, None, Some(namespace), key),
    }
}

/// Whatever is removed, the store stays consistent.
pub proof fn law_remove_keeps_the_store_consistent(model: ConfigModel, key: Seq<char>)
    requires
        consistent(model),
    ensures
        consistent(removed(model, key)),
{
    let from = found_under(model, key);
    let next = removed(model, key);
    assert forall|v: Seq<char>| #[trigger] ids_of(model.by_namespace, v).contains(key) == (from
        == Some(v)) by {}
    lemma_rebound_unique(model.by_namespace, from, None, key);
    assert forall|ns: Seq<char>, x: Seq<char>|
        #![trigger ids_of(next.by_namespace, ns).contains(x)]
        ids_of(next.by_namespace, ns).contains(x) == (found_under(next, x) == Some(ns)) by {
        lemma_rebound(model.by_namespace, from, None, key, ns, x);
        assert(ids_of(model.by_namespace, ns).contains(x) == (found_under(model, x) == Some(ns)));
    }
    assert(next.by_key.dom() =~= next.namespaces.dom());
}

/// Whatever is inserted, the store stays consistent.
pub proof fn law_insert_keeps_the_store_consistent(
    model: ConfigModel,
    key: Seq<char>,
    namespace: Seq<char>,
    data: WorkloadConfigData,
)
    requires
        consistent(model),
    ensures
        consistent(inserted(model, key, namespace, data)),
{
    law_remove_keeps_the_store_consistent(model, key);
    let before = removed(model, key);
    let next = inserted(model, key, namespace, data);
    assert forall|v: Seq<char>| #[trigger] ids_of(before.by_namespace, v).contains(key) == (None::<
        Seq<char>,
    > == Some(v)) by {
        assert(found_under(before, key) is None);
    }
    lemma_rebound_unique(before.by_namespace, None, Some(namespace), key);
    assert forall|ns: Seq<char>, x: Seq<char>|
        #![trigger ids_of(next.by_namespace, ns).contains(x)]
        ids_of(next.by_namespace, ns).contains(x) == (found_under(next, x) == Some(ns)) by {
        lemma_rebound(before.by_namespace, None, Some(namespace), key, ns, x);
        assert(ids_of(before.by_namespace, ns).contains(x) == (found_under(before, x) == Some(
            ns,
        )));
    }
    assert(next.by_key.dom() =~= next.namespaces.dom());
}

struct Inner {
    by_key: Table<String, WorkloadConfigData>,
    key_to_namespace: Table<String, String>,
    by_namespace: Index,
}

spec fn namespace_views(table: Map<Seq<char>, String>) -> Map<Seq<char>, Seq<char>> {
    Map::new(|k: Seq<char>| table.dom().contains(k), |k: Seq<char>| table[k]@)
}

impl Inner {
    spec fn model(self) -> ConfigModel {
        ConfigModel {
            by_key: self.by_key@,
            namespaces: namespace_views(self.key_to_namespace@),
            by_namespace: self.by_namespace@,
        }
    }

    fn empty() -> (r: Inner)
        ensures
            r.model().by_key == Map::<Seq<char>, WorkloadConfigData>::empty(),
            consistent(r.model()),
            r.model().by_namespace == Map::<Seq<char>, Seq<Seq<char>>>::empty(),
    {
        let inner: Inner = Inner {
            by_key: Table::new(),
            key_to_namespace: Table::new(),
            by_namespace: Index::new(),
        };
        assert(inner.model().by_key.dom() =~= inner.model().namespaces.dom());
        inner
    }

    fn remove(&mut self, key: &String)
        requires
            consistent(old(self).model()),
        ensures
            final(self).model() == removed(old(self).model(), key@),
    {
        let ghost start = self.model();
        let gone: Option<WorkloadConfigData> = self.by_key.remove(key);
        let namespace: Option<String> = self.key_to_namespace.remove(key);
        proof {
            assert(opt_view(namespace) == found_under(start, key@));
            if let Some(ns) = opt_view(namespace) {
                assert(ids_of(start.by_namespace, ns).contains(key@));
            }
        }
        self.by_namespace.rebind(&namespace, &None, key);
        assert(self.model().namespaces =~= removed(start, key@).namespaces);
    }
}

/// Configurations, found by key and by namespace.
pub struct WorkloadConfigStore {
    inner: Inner,
}

impl View for WorkloadConfigStore {
    type V = ConfigModel;

    closed spec fn view(&self) -> ConfigModel {
        self.inner.model()
    }
}

impl Default for WorkloadConfigStore {
    fn default() -> (r: Self)
        ensures
            r@.by_key == Map::<Seq<char>, WorkloadConfigData>::empty(),
            r@.by_namespace == Map::<Seq<char>, Seq<Seq<char>>>::empty(),
            consistent(r@),
    {
        WorkloadConfigStore { inner: Inner::empty() }
    }
}

impl WorkloadConfigStore {
    #[verifier::type_invariant]
    spec fn well_formed(self) -> bool {
        consistent(self.inner.model())
    }

    /// The configurations that are found under a namespace.
    pub fn get_by_namespace(&self, ns: &String) -> (r: Vec<&WorkloadConfigData>)
        ensures
            consistent(self@),
            r@.len() == ids_of(self@.by_namespace, ns@).len(),
            forall|i: int|
                0 <= i < r@.len() ==> *(#[trigger] r@[i]) == self@.by_key[ids_of(
                    self@.by_namespace,
                    ns@,
                )[i]],
    {
        proof {
            use_type_invariant(self);
        }
        let ghost all = ids_of(self@.by_namespace, ns@);
        let mut out: Vec<&WorkloadConfigData> = Vec::new();
        if let Some(keys) = self.inner.by_namespace.get(ns) {
            assert(all == views(keys@));
            let mut i: usize = 0;
            while i < keys.len()
                invariant
                    i <= keys@.len(),
                    all == views(keys@),
                    all == ids_of(self@.by_namespace, ns@),
                    consistent(self@),
                    self@ == self.inner.model(),
                    out@.len() == i,
                    forall|k: int| 0 <= k < i ==> *(#[trigger] out@[k]) == self@.by_key[all[k]],
                decreases keys@.len() - i,
            {
                assert(all[i as int] == keys@[i as int]@);
                assert(all.contains(all[i as int]));
                match self.inner.by_key.get(&keys[i]) {
                    Some(data) => {
                        out.push(data);
                    },
                    None => {
                        assert(false);
                    },
                }
                i = i + 1;
            }
        }
        out
    }

    /// Whether there is no configuration.
    pub fn is_empty(&self) -> (r: bool)
        ensures
            r == (self@.by_key.dom().len() == 0),
            self@.by_key.dom().finite(),
    {
        self.inner.by_key.len() == 0
    }

    /// All configurations, each with its key.
    pub fn all(&self) -> (r: &Vec<(String, WorkloadConfigData)>)
        ensures
            lists(r@, self@.by_key),
    {
        self.inner.by_key.entries()
    }

    /// The actor of a configuration that has one.
    pub fn actor_context(&self) -> (r: Option<&ActorContext>)
        ensures
            match r {
                Some(actor) => exists|key: Seq<char>| #[trigger]
                    self@.by_key.dom().contains(key) && self@.by_key[key].actor_context == Some(
                        *actor,
                    ),
                None => forall|key: Seq<char>| #[trigger]
                    self@.by_key.dom().contains(key) ==> self@.by_key[key].actor_context is None,
            },
    {
        let all: &Vec<(String, WorkloadConfigData)> = self.inner.by_key.entries();
        let mut i: usize = 0;
        while i < all.len()
            invariant
                i <= all@.len(),
                lists(all@, self@.by_key),
                forall|k: int| 0 <= k < i ==> (#[trigger] all@[k]).1.actor_context is None,
            decreases all@.len() - i,
        {
            if let Some(actor) = &all[i].1.actor_context {
                assert(self@.by_key.dom().contains(all@[i as int].0@));
                return Some(actor);
            }
            i = i + 1;
        }
        assert forall|key: Seq<char>| #[trigger]
            self@.by_key.dom().contains(key) implies self@.by_key[key].actor_context is None by {
            let k = choose|k: int| 0 <= k < all@.len() && (#[trigger] all@[k]).0@ == key;
            assert(all@[k].1.actor_context is None);
        }
        None
    }

    /// Stores a configuration in place of the one of the same key. One for all
    /// namespaces is found under the empty one.
    pub fn insert(
        &mut self,
        key: String,
        namespace: String,
        scope: WorkloadConfigScope,
        data: WorkloadConfigData,
    )
        ensures
            final(self)@ == inserted(
                old(self)@,
                key@,
                scope_namespace(scope, namespace@),
                data,
            ),
            consistent(final(self)@),
    {
        proof {
            use_type_invariant(&*self);
            law_remove_keeps_the_store_consistent(self@, key@);
            law_insert_keeps_the_store_consistent(
                self@,
                key@,
                scope_namespace(scope, namespace@),
                data,
            );
        }
        let ghost start = self@;
        let mut inner: Inner = Inner::empty();
        std::mem::swap(&mut inner, &mut self.inner);
        inner.remove(&key);
        let under: String = match scope {
            WorkloadConfigScope::Global => String::new(),
            WorkloadConfigScope::Namespace => namespace,
        };
        assert(under@ =~= scope_namespace(scope, namespace@));
        let group: Option<String> = Some(under.clone());
        inner.by_namespace.rebind(&None, &group, &key);
        inner.key_to_namespace.insert(key.clone(), under);
        inner.by_key.insert(key, data);
        assert(inner.model().namespaces =~= inserted(start, key@, under@, data).namespaces);
        self.inner = inner;
    }

    /// Forgets a configuration.
    pub fn remove(&mut self, key: &String)
        ensures
            final(self)@ == removed(old(self)@, key@),
            consistent(final(self)@),
    {
        proof {
            use_type_invariant(&*self);
            law_remove_keeps_the_store_consistent(self@, key@);
        }
        let mut inner: Inner = Inner::empty();
        std::mem::swap(&mut inner, &mut self.inner);
        inner.remove(key);
        self.inner = inner;
    }
}

/// An actor is accepted exactly where it has an identifier, a name, a space and a
/// generation that is not zero; what is missing first is told.
pub proof fn law_accepted_actors(message: ActorContextMessage)
    ensures
        actor_fault(message) is None <==> message.actor_uid@.len() > 0 && message.actor_name@.len()
            > 0 && message.atespace@.len() > 0 && message.generation > 0,
        actor_fault(message) == Some(ActorContextError::MissingUid) <==> message.actor_uid@.len()
            == 0,
        actor_fault(message) == Some(ActorContextError::MissingName) <==> message.actor_uid@.len()
            > 0 && message.actor_name@.len() == 0,
        actor_fault(message) == Some(ActorContextError::MissingAtespace) <==> message.actor_uid@.len()
            > 0 && message.actor_name@.len() > 0 && message.atespace@.len() == 0,
        actor_fault(message) == Some(ActorContextError::ZeroGeneration) <==> message.actor_uid@.len()
            > 0 && message.actor_name@.len() > 0 && message.atespace@.len() > 0
            && message.generation == 0,
{
}

/// A configuration of a namespace is found under it and one for all under the empty
/// namespace, in place of the one of the same key and of no other.
pub proof fn law_configurations_take_their_places(
    model: ConfigModel,
    key: Seq<char>,
    scope: WorkloadConfigScope,
    namespace: Seq<char>,
    data: WorkloadConfigData,
    other: Seq<char>,
)
    ensures
        scope is Global ==> scope_namespace(scope, namespace).len() == 0,
        scope is Namespace ==> scope_namespace(scope, namespace) == namespace,
        ({
            let under = scope_namespace(scope, namespace);
            let after = inserted(model, key, under, data);
            &&& after.by_key.dom() == model.by_key.dom().insert(key)
            &&& after.by_key[key] == data
            &&& found_under(after, key) == Some(under)
            &&& other != key ==> after.by_key[other] == model.by_key[other] && found_under(
                after,
                other,
            ) == found_under(model, other)
        }),
        ({
            let after = removed(model, key);
            &&& after.by_key.dom() == model.by_key.dom().remove(key)
            &&& found_under(after, key) is None
            &&& other != key ==> after.by_key[other] == model.by_key[other] && found_under(
                after,
                other,
            ) == found_under(model, other)
        }),
{
}

/// An actor that is refused is told to be so with the field that is at fault.
pub proof fn law_refused_actors_in_words()
    ensures
        ActorContextError::MissingUid.described() == "ActorContext actor_uid is required"@,
        ActorContextError::MissingName.described() == "ActorContext actor_name is required"@,
        ActorContextError::MissingAtespace.described() == "ActorContext atespace is required"@,
        ActorContextError::ZeroGeneration.described() == "ActorContext generation must be non-zero"@,
{
}

} // verus!
