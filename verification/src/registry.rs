//! The schema registry: the methods that services have declared, each
//! under a path of its own, open for registration until it is sealed.

use crate::schema::{MethodDescriptor, MethodSpec, ServiceDescriptor, ServiceSpec};
use crate::wire::same_text;
use vstd::prelude::*;

verus! {

/// Why the registry refused a registration or a sealing.
#[derive(Clone, Debug, PartialEq, Eq)]
pub enum RegistryError {
    /// A method of the service has the path of one registered before, or of
    /// an earlier method of the same service.
    DuplicatePath(String),
    /// The registry is sealed and takes no more services.
    Sealed,
    /// The registry was sealed before.
    AlreadySealed,
    /// A service came with more or fewer handlers than it has methods.
    HandlerMismatch,
}

/// Mathematical model of a [`RegistryError`].
pub enum RegistryFault {
    DuplicatePath(Seq<char>),
    Sealed,
    AlreadySealed,
    HandlerMismatch,
}

impl View for RegistryError {
    type V = RegistryFault;

    open spec fn view(&self) -> RegistryFault {
        match self {
            RegistryError::DuplicatePath(path) => RegistryFault::DuplicatePath(path@),
            RegistryError::Sealed => RegistryFault::Sealed,
            RegistryError::AlreadySealed => RegistryFault::AlreadySealed,
            RegistryError::HandlerMismatch => RegistryFault::HandlerMismatch,
        }
    }
}

/// What the outcome of a registration or a sealing stands for.
pub open spec fn outcome_of(r: Result<(), RegistryError>) -> Result<(), RegistryFault> {
    match r {
        Ok(()) => Ok(()),
        Err(error) => Err(error@),
    }
}

/// The first method from `from` on that is served at `path`.
pub open spec fn position(methods: Seq<MethodSpec>, path: Seq<char>, from: int) -> Option<int>
    decreases methods.len() - from,
{
    if from < 0 || from >= methods.len() {
        None
    } else if methods[from].path == path {
        Some(from)
    } else {
        position(methods, path, from + 1)
    }
}

/// No two methods are served at the same path.
pub open spec fn distinct_paths(methods: Seq<MethodSpec>) -> bool {
    forall|i: int, j: int|
        0 <= i < j < methods.len() ==> (#[trigger] methods[i]).path != (#[trigger] methods[j]).path
}

/// The `j`-th incoming method has the path of a method that exists, or of
/// an incoming method before it.
pub open spec fn collides_at(existing: Seq<MethodSpec>, incoming: Seq<MethodSpec>, j: int) -> bool {
    position(existing, incoming[j].path, 0).is_some() || position(
        incoming.take(j),
        incoming[j].path,
        0,
    ).is_some()
}

/// The first incoming method from `from` on that collides.
pub open spec fn first_collision(existing: Seq<MethodSpec>, incoming: Seq<MethodSpec>, from: int)
    -> Option<int>
    decreases incoming.len() - from,
{
    if from < 0 || from >= incoming.len() {
        None
    } else if collides_at(existing, incoming, from) {
        Some(from)
    } else {
        first_collision(existing, incoming, from + 1)
    }
}

/// Mathematical model of a [`Registry`]: the methods in the order of their
/// registration, and whether the registry is sealed.
pub struct RegistrySpec {
    pub methods: Seq<MethodSpec>,
    pub sealed: bool,
}

impl RegistrySpec {
    /// Every method has the path derived from its names, and no path
    /// occurs twice.
    pub open spec fn well_formed(self) -> bool {
        &&& forall|k: int| 0 <= k < self.methods.len() ==> (#[trigger] self.methods[k]).well_formed()
        &&& distinct_paths(self.methods)
    }
}

/// The registry after a service asked to be registered, and what the
/// service was told. A sealed registry takes nothing. A service of which
/// some method collides is refused whole, under the path of the first such
/// method. Otherwise all its methods are added behind those that exist.
pub open spec fn registered(before: RegistrySpec, service: ServiceSpec) -> (
    RegistrySpec,
    Result<(), RegistryFault>,
) {
    if before.sealed {
        (before, Err(RegistryFault::Sealed))
    } else {
        match first_collision(before.methods, service.methods, 0) {
            Some(j) => (before, Err(RegistryFault::DuplicatePath(service.methods[j].path))),
            None => (
                RegistrySpec { methods: before.methods + service.methods, sealed: false },
                Ok(()),
            ),
        }
    }
}

/// The registry after it was asked to seal itself, and what the caller
/// was told.
pub open spec fn sealed_once(before: RegistrySpec) -> (RegistrySpec, Result<(), RegistryFault>) {
    if before.sealed {
        (before, Err(RegistryFault::AlreadySealed))
    } else {
        (RegistrySpec { methods: before.methods, sealed: true }, Ok(()))
    }
}

/// What `position` finds is the first method at the path.
pub proof fn lemma_position(methods: Seq<MethodSpec>, path: Seq<char>, from: int)
    requires
        0 <= from,
    ensures
        match position(methods, path, from) {
            Some(k) => from <= k < methods.len() && methods[k].path == path && forall|j: int|
                from <= j < k ==> (#[trigger] methods[j]).path != path,
            None => forall|j: int| from <= j < methods.len() ==> (#[trigger] methods[j]).path != path,
        },
    decreases methods.len() - from,
{
    if from < methods.len() && methods[from].path != path {
        lemma_position(methods, path, from + 1);
    }
}

/// Where no incoming method collides, none has the path of another method.
proof fn lemma_no_collision(existing: Seq<MethodSpec>, incoming: Seq<MethodSpec>, from: int)
    requires
        0 <= from,
        first_collision(existing, incoming, from).is_none(),
    ensures
        forall|j: int| from <= j < incoming.len() ==> !collides_at(existing, incoming, j),
    decreases incoming.len() - from,
{
    if from < incoming.len() {
        lemma_no_collision(existing, incoming, from + 1);
    }
}

/// Methods that do not collide keep all paths distinct when they are added.
proof fn lemma_distinct_after(existing: Seq<MethodSpec>, incoming: Seq<MethodSpec>)
    requires
        distinct_paths(existing),
        first_collision(existing, incoming, 0).is_none(),
    ensures
        distinct_paths(existing + incoming),
{
    let all = existing + incoming;
    lemma_no_collision(existing, incoming, 0);
    assert forall|i: int, j: int| 0 <= i < j < all.len() implies (#[trigger] all[i]).path != (
    #[trigger] all[j]).path by {
        if j >= existing.len() {
            let jj = j - existing.len();
            assert(!collides_at(existing, incoming, jj));
            assert(all[j] == incoming[jj]);
            if i < existing.len() {
                lemma_position(existing, incoming[jj].path, 0);
                assert(all[i] == existing[i]);
            } else {
                let ii = i - existing.len();
                lemma_position(incoming.take(jj), incoming[jj].path, 0);
                assert(all[i] == incoming.take(jj)[ii]);
            }
        } else {
            assert(all[i] == existing[i]);
            assert(all[j] == existing[j]);
        }
    }
}

/// The models of a vector of methods.
pub open spec fn models(methods: Seq<MethodDescriptor>) -> Seq<MethodSpec> {
    methods.map_values(|m: MethodDescriptor| m@)
}

/// Finds the first of the first `limit` methods that is served at `path`.
fn find_path(methods: &Vec<MethodDescriptor>, limit: usize, path: &str) -> (found: Option<usize>)
    requires
        limit <= methods.len(),
    ensures
        match position(models(methods@).take(limit as int), path@, 0) {
            Some(k) => found matches Some(i) && i == k && 0 <= k < limit,
            None => found.is_none(),
        },
{
    let ghost seen = models(methods@).take(limit as int);
    let mut k: usize = 0;
    while k < limit
        invariant
            k <= limit <= methods.len(),
            seen == models(methods@).take(limit as int),
            position(seen, path@, 0) == position(seen, path@, k as int),
        decreases limit - k,
    {
        assert(seen[k as int] == methods@[k as int]@);
        if same_text(methods[k].path(), path) {
            return Some(k);
        }
        k += 1;
    }
    None
}

/// The methods that services have declared, and whether more may come.
#[derive(Debug)]
pub struct Registry {
    methods: Vec<MethodDescriptor>,
    sealed: bool,
}

impl View for Registry {
    type V = RegistrySpec;

    closed spec fn view(&self) -> RegistrySpec {
        RegistrySpec { methods: models(self.methods@), sealed: self.sealed }
    }
}

impl Registry {
    #[verifier::type_invariant]
    spec fn paths_are_unique(self) -> bool {
        self@.well_formed()
    }

    /// An empty registry that is open for registration.
    pub fn new() -> (registry: Registry)
        ensures
            registry@ == (RegistrySpec { methods: Seq::empty(), sealed: false }),
            registry@.well_formed(),
    {
        let registry = Registry { methods: Vec::new(), sealed: false };
        assert(registry@.methods =~= Seq::empty());
        registry
    }

    /// Registers all methods of a service, or none of them.
    #[verifier::loop_isolation(false)]
    pub fn register(&mut self, service: ServiceDescriptor) -> (r: Result<(), RegistryError>)
        ensures
            (final(self)@, outcome_of(r)) == registered(old(self)@, service@),
            final(self)@.well_formed(),
    {
        proof {
            use_type_invariant(&*self);
        }
        if self.sealed {
            return Err(RegistryError::Sealed);
        }
        let ghost existing = self@.methods;
        let ghost arriving = service@.methods;
        let incoming = service.methods();
        assert(models(self.methods@).take(self.methods@.len() as int) =~= existing);
        let mut j: usize = 0;
        while j < incoming.len()
            invariant
                j <= incoming.len(),
                models(incoming@) == arriving,
                existing == models(self.methods@),
                models(self.methods@).take(self.methods@.len() as int) == existing,
                first_collision(existing, arriving, 0) == first_collision(
                    existing,
                    arriving,
                    j as int,
                ),
            decreases incoming.len() - j,
        {
            assert(arriving[j as int] == incoming@[j as int]@);
            let path = incoming[j].path();
            if find_path(&self.methods, self.methods.len(), path).is_some() || find_path(
                incoming,
                j,
                path,
            ).is_some() {
                return Err(RegistryError::DuplicatePath(path.to_owned()));
            }
            j += 1;
        }
        proof {
            lemma_distinct_after(existing, arriving);
        }
        let mut added = service.into_methods();
        let mut methods: Vec<MethodDescriptor> = Vec::new();
        core::mem::swap(&mut methods, &mut self.methods);
        methods.append(&mut added);
        assert(models(methods@) =~= existing + arriving);
        self.methods = methods;
        Ok(())
    }

    /// Closes the registry for registration. Fails where it was closed
    /// before.
    pub fn seal(&mut self) -> (r: Result<(), RegistryError>)
        ensures
            (final(self)@, outcome_of(r)) == sealed_once(old(self)@),
            final(self)@.well_formed(),
    {
        proof {
            use_type_invariant(&*self);
        }
        if self.sealed {
            return Err(RegistryError::AlreadySealed);
        }
        self.sealed = true;
        Ok(())
    }

    /// Tells whether the registry is sealed.
    pub fn is_sealed(&self) -> (sealed: bool)
        ensures
            sealed == self@.sealed,
    {
        self.sealed
    }

    /// The number of registered methods.
    pub fn len(&self) -> (len: usize)
        ensures
            len == self@.methods.len(),
    {
        self.methods.len()
    }

    /// The place of the method that is served at `path`, if there is one.
    pub fn index_of(&self, path: &str) -> (found: Option<usize>)
        ensures
            self@.well_formed(),
            match position(self@.methods, path@, 0) {
                Some(k) => found matches Some(i) && i == k && 0 <= k < self@.methods.len(),
                None => found.is_none(),
            },
    {
        proof {
            use_type_invariant(self);
        }
        assert(models(self.methods@).take(self.methods@.len() as int) =~= self@.methods);
        find_path(&self.methods, self.methods.len(), path)
    }

    /// The method at a place, if the place is taken.
    pub fn get(&self, index: usize) -> (method: Option<&MethodDescriptor>)
        ensures
            self@.well_formed(),
            match method {
                Some(m) => index < self@.methods.len() && m@ == self@.methods[index as int],
                None => index >= self@.methods.len(),
            },
    {
        proof {
            use_type_invariant(self);
        }
        if index < self.methods.len() {
            Some(&self.methods[index])
        } else {
            None
        }
    }

    /// The method that is served at `path`, if there is one.
    pub fn resolve(&self, path: &str) -> (method: Option<&MethodDescriptor>)
        ensures
            self@.well_formed(),
            match position(self@.methods, path@, 0) {
                Some(k) => method matches Some(m) && m@ == self@.methods[k],
                None => method.is_none(),
            },
    {
        match self.index_of(path) {
            Some(k) => self.get(k),
            None => None,
        }
    }
}

/// Registration keeps every path unique: whatever a well-formed registry
/// is asked to register, it is well formed afterwards.
pub proof fn lemma_registered_well_formed(before: RegistrySpec, service: ServiceSpec)
    requires
        before.well_formed(),
        service.well_formed(),
    ensures
        registered(before, service).0.well_formed(),
{
    if !before.sealed && first_collision(before.methods, service.methods, 0).is_none() {
        lemma_distinct_after(before.methods, service.methods);
        let all = before.methods + service.methods;
        assert forall|k: int| 0 <= k < all.len() implies (#[trigger] all[k]).well_formed() by {
            if k < before.methods.len() {
                assert(all[k] == before.methods[k]);
            } else {
                assert(all[k] == service.methods[k - before.methods.len()]);
            }
        }
    }
}

/// What was registered is resolved: once a service was taken, each of its
/// methods is found at its path, behind the methods that existed before,
/// and every method that existed before is found where it was.
pub proof fn lemma_registered_is_resolved(before: RegistrySpec, service: ServiceSpec)
    requires
        before.well_formed(),
        registered(before, service).1.is_ok(),
    ensures
        forall|j: int|
            0 <= j < service.methods.len() ==> position(
                registered(before, service).0.methods,
                (#[trigger] service.methods[j]).path,
                0,
            ) == Some(before.methods.len() + j),
        forall|k: int|
            0 <= k < before.methods.len() ==> position(
                registered(before, service).0.methods,
                (#[trigger] before.methods[k]).path,
                0,
            ) == Some(k),
{
    let all = before.methods + service.methods;
    lemma_distinct_after(before.methods, service.methods);
    assert forall|n: int| 0 <= n < all.len() implies position(all, (#[trigger] all[n]).path, 0)
        == Some(n) by {
        lemma_position(all, all[n].path, 0);
    }
    assert forall|j: int| 0 <= j < service.methods.len() implies position(
        all,
        (#[trigger] service.methods[j]).path,
        0,
    ) == Some(before.methods.len() + j) by {
        assert(all[before.methods.len() + j] == service.methods[j]);
    }
    assert forall|k: int| 0 <= k < before.methods.len() implies position(
        all,
        (#[trigger] before.methods[k]).path,
        0,
    ) == Some(k) by {
        assert(all[k] == before.methods[k]);
    }
}

/// A method collides when a method that exists, or an incoming method
/// before it, has its path.
pub proof fn lemma_same_path_collides(
    existing: Seq<MethodSpec>,
    incoming: Seq<MethodSpec>,
    j: int,
)
    requires
        0 <= j < incoming.len(),
        (exists|i: int| 0 <= i < existing.len() && (#[trigger] existing[i]).path == incoming[j].path)
            || (exists|i: int| 0 <= i < j && (#[trigger] incoming[i]).path == incoming[j].path),
    ensures
        collides_at(existing, incoming, j),
{
    lemma_position(existing, incoming[j].path, 0);
    lemma_position(incoming.take(j), incoming[j].path, 0);
    if exists|i: int| 0 <= i < j && (#[trigger] incoming[i]).path == incoming[j].path {
        let i = choose|i: int| 0 <= i < j && (#[trigger] incoming[i]).path == incoming[j].path;
        assert(incoming.take(j)[i] == incoming[i]);
    }
}

/// Where some incoming method collides, the first collision is found at
/// or before it.
proof fn lemma_first_collision_found(
    existing: Seq<MethodSpec>,
    incoming: Seq<MethodSpec>,
    from: int,
    j: int,
)
    requires
        0 <= from <= j < incoming.len(),
        collides_at(existing, incoming, j),
    ensures
        first_collision(existing, incoming, from) matches Some(first) && from <= first <= j,
    decreases j - from,
{
    if from < j && !collides_at(existing, incoming, from) {
        lemma_first_collision_found(existing, incoming, from + 1, j);
    }
}

/// A service of which some method collides is refused with a duplicate
/// path, and none of its methods is added.
pub proof fn lemma_collision_is_refused(before: RegistrySpec, service: ServiceSpec, j: int)
    requires
        !before.sealed,
        0 <= j < service.methods.len(),
        collides_at(before.methods, service.methods, j),
    ensures
        registered(before, service).0 == before,
        registered(before, service).1 matches Err(RegistryFault::DuplicatePath(_)),
{
    lemma_first_collision_found(before.methods, service.methods, 0, j);
}

/// A sealed registry refuses every service and every further sealing, and
/// stays as it is.
pub proof fn lemma_sealed_refuses(before: RegistrySpec, service: ServiceSpec)
    requires
        before.sealed,
    ensures
        registered(before, service) == (before, Err::<(), RegistryFault>(RegistryFault::Sealed)),
        sealed_once(before) == (before, Err::<(), RegistryFault>(RegistryFault::AlreadySealed)),
{
}

/// Whatever state a registry is in, once it was asked to seal itself it
/// refuses to be sealed again and refuses every service.
pub proof fn lemma_sealing_is_final(before: RegistrySpec, service: ServiceSpec)
    ensures
        sealed_once(before).0.sealed,
        sealed_once(before).0.methods == before.methods,
        sealed_once(sealed_once(before).0).1 == Err::<(), RegistryFault>(
            RegistryFault::AlreadySealed,
        ),
        registered(sealed_once(before).0, service).1 == Err::<(), RegistryFault>(
            RegistryFault::Sealed,
        ),
{
}

} // verus!
