use crate::error::{Failure, FragmentGeneratorError};
use crate::fragment::{
    inherited_names, input_fragment, kept_names, record, selection_fragment, union_fragment,
    value_names, FragmentGenerator, Options, ResolvedFieldSet,
};
use crate::schema::{declares, TypeDefinition, TypeKind, TypeRegistry};
use crate::text::{agrees, join, join_strings, lemma_names_push, names};
use vstd::prelude::*;

verus! {

/// How far a run has come: what was recorded, and the fragments so far.
pub ghost struct RunState {
    pub resolved: Map<Seq<char>, Seq<Seq<char>>>,
    pub blocks: Seq<Seq<char>>,
}

/// The state of a run in progress.
#[derive(Debug)]
pub struct Output {
    pub resolved: ResolvedFieldSet,
    pub blocks: Vec<String>,
}

impl View for Output {
    type V = RunState;

    open spec fn view(&self) -> RunState {
        RunState { resolved: self.resolved@, blocks: names(self.blocks@) }
    }
}

/// The state before anything was emitted.
pub open spec fn initial_state() -> RunState {
    RunState { resolved: Map::empty(), blocks: Seq::empty() }
}

/// The state after one more fragment, with the field names recorded for it.
pub open spec fn emitted(state: RunState, name: Seq<char>, text: Seq<char>, kept: Seq<Seq<char>>) -> RunState {
    RunState { resolved: record(state.resolved, name, kept), blocks: state.blocks.push(text) }
}

/// Emits the fragment of one type. Scalars, enums and objects of
/// introspection have none; a union records no fields.
#[verifier::opaque]
pub open spec fn emit(
    types: Seq<TypeDefinition>,
    opts: Options,
    state: RunState,
    def: TypeDefinition,
) -> Result<RunState, Failure> {
    match def {
        TypeDefinition::Scalar { .. } => Ok(state),
        TypeDefinition::Enum { .. } => Ok(state),
        TypeDefinition::Interface { name, fields, implements } => match selection_fragment(
            types,
            opts,
            state.resolved,
            name@,
            implements@,
            fields@,
            false,
        ) {
            Err(e) => Err(e),
            Ok(text) => Ok(
                emitted(
                    state,
                    name@,
                    text,
                    kept_names(fields@, inherited_names(state.resolved, implements@)),
                ),
            ),
        },
        TypeDefinition::Object { name, fields, implements, introspection } => if introspection {
            Ok(state)
        } else {
            match selection_fragment(
                types,
                opts,
                state.resolved,
                name@,
                implements@,
                fields@,
                opts.add_typename,
            ) {
                Err(e) => Err(e),
                Ok(text) => Ok(
                    emitted(
                        state,
                        name@,
                        text,
                        kept_names(fields@, inherited_names(state.resolved, implements@)),
                    ),
                ),
            }
        },
        TypeDefinition::Union { name, members } => Ok(
            RunState {
                resolved: state.resolved,
                blocks: state.blocks.push(union_fragment(opts, name@, members@)),
            },
        ),
        TypeDefinition::InputObject { name, fields } => match input_fragment(
            types,
            opts,
            name@,
            fields@,
        ) {
            Err(e) => Err(e),
            Ok(text) => Ok(emitted(state, name@, text, value_names(fields@))),
        },
    }
}

/// The first of the names that is the name of no type at all.
pub open spec fn unknown_reference(types: Seq<TypeDefinition>, implements: Seq<String>) -> Option<
    Seq<char>,
>
    decreases implements.len(),
{
    if implements.len() == 0 {
        None
    } else {
        match unknown_reference(types, implements.drop_last()) {
            Some(name) => Some(name),
            None => if declares(types, implements.last()@) {
                None
            } else {
                Some(implements.last()@)
            },
        }
    }
}

/// Of some first names one is unknown: then it is the first unknown of all.
pub proof fn lemma_unknown_stays(types: Seq<TypeDefinition>, implements: Seq<String>, k: int)
    requires
        0 <= k <= implements.len(),
        unknown_reference(types, implements.take(k)) is Some,
    ensures
        unknown_reference(types, implements) == unknown_reference(types, implements.take(k)),
    decreases implements.len(),
{
    if k == implements.len() {
        assert(implements.take(k) =~= implements);
    } else {
        assert(implements.drop_last().take(k) =~= implements.take(k));
        lemma_unknown_stays(types, implements.drop_last(), k);
    }
}

/// Whether every one of the names has been recorded.
pub open spec fn all_resolved(
    resolved: Map<Seq<char>, Seq<Seq<char>>>,
    implements: Seq<String>,
) -> bool {
    forall|k: int|
        0 <= k < implements.len() ==> resolved.contains_key((#[trigger] implements[k])@)
}

/// Works the list of outstanding interfaces off from the front. The first
/// is emitted if all it implements is recorded, and the count of retries
/// starts anew; else it goes to the back, and that is one retry more. A
/// reference to no type at all fails at once; as many retries as there are
/// interfaces outstanding, and one more, mean that they wait on one
/// another.
pub open spec fn resolve(
    types: Seq<TypeDefinition>,
    opts: Options,
    worklist: Seq<usize>,
    retries: nat,
    state: RunState,
) -> Result<RunState, Failure>
    decreases worklist.len(), worklist.len() - retries,
{
    if worklist.len() == 0 {
        Ok(state)
    } else {
        let def = types[worklist[0] as int];
        let rest = worklist.drop_first();
        if let Some(unknown) = unknown_reference(types, def.spec_implements()) {
            Err(Failure::UnresolvedType(unknown))
        } else if all_resolved(state.resolved, def.spec_implements()) {
            match emit(types, opts, state, def) {
                Err(e) => Err(e),
                Ok(next) => resolve(types, opts, rest, 0, next),
            }
        } else if retries >= worklist.len() {
            Err(Failure::DependencyCycle(def.spec_name()))
        } else {
            resolve(types, opts, rest.push(worklist[0]), retries + 1, state)
        }
    }
}

/// The places of the interfaces among the first `n` types, in order.
pub open spec fn interface_indices(types: Seq<TypeDefinition>, n: nat) -> Seq<usize>
    decreases n,
{
    if n == 0 {
        Seq::empty()
    } else if types[n - 1].spec_kind() == TypeKind::Interface {
        interface_indices(types, (n - 1) as nat).push((n - 1) as usize)
    } else {
        interface_indices(types, (n - 1) as nat)
    }
}

/// Emits, in order, those of the first `n` types that are of `kind`.
pub open spec fn emit_all(
    types: Seq<TypeDefinition>,
    opts: Options,
    kind: TypeKind,
    n: nat,
    state: RunState,
) -> Result<RunState, Failure>
    decreases n,
{
    if n == 0 {
        Ok(state)
    } else {
        match emit_all(types, opts, kind, (n - 1) as nat, state) {
            Err(e) => Err(e),
            Ok(before) => if types[n - 1].spec_kind() == kind {
                emit(types, opts, before, types[n - 1])
            } else {
                Ok(before)
            },
        }
    }
}

/// A whole run: the interfaces, each after those it implements; then the
/// unions, the objects and the input objects, each kind in the order of
/// declaration.
pub open spec fn run(types: Seq<TypeDefinition>, opts: Options) -> Result<
    RunState,
    Failure,
> {
    match resolve(types, opts, interface_indices(types, types.len()), 0, initial_state()) {
        Err(e) => Err(e),
        Ok(interfaces) => match emit_all(types, opts, TypeKind::Union, types.len(), interfaces) {
            Err(e) => Err(e),
            Ok(unions) => match emit_all(types, opts, TypeKind::Object, types.len(), unions) {
                Err(e) => Err(e),
                Ok(objects) => emit_all(types, opts, TypeKind::InputObject, types.len(), objects),
            },
        },
    }
}

/// The text of a whole run: the fragments with one blank line between each
/// two, or the failure that ended it.
pub open spec fn generated(types: Seq<TypeDefinition>, opts: Options) -> Result<
    Seq<char>,
    Failure,
> {
    match run(types, opts) {
        Err(e) => Err(e),
        Ok(state) => Ok(join(state.blocks, "\n"@)),
    }
}

/// Whether a step ended as expected: in the expected state, or with the
/// expected failure and the state untouched.
pub open spec fn stepped(
    done: Result<(), FragmentGeneratorError>,
    before: RunState,
    after: RunState,
    expected: Result<RunState, Failure>,
) -> bool {
    match done {
        Ok(()) => expected == Ok::<RunState, Failure>(after),
        Err(e) => expected == Err::<RunState, Failure>(e@) && after == before,
    }
}

impl Output {
    /// The state of a run that has emitted nothing.
    pub fn new() -> (out: Output)
        ensures
            out@ == initial_state(),
    {
        let out = Output { resolved: ResolvedFieldSet::new(), blocks: Vec::new() };
        proof {
            assert(names(out.blocks@) =~= Seq::empty());
        }
        out
    }

    /// Takes one more fragment and records the field names kept in it.
    pub fn push(&mut self, name: &String, text: String, kept: Vec<String>)
        ensures
            final(self)@ == emitted(old(self)@, name@, text@, names(kept@)),
    {
        proof {
            lemma_names_push(self.blocks@, text);
        }
        self.blocks.push(text);
        self.resolved.insert(name.clone(), kept);
    }
}

impl FragmentGenerator {
    /// Emits the fragment of one type into `out`.
    pub fn emit(&self, registry: &TypeRegistry, def: &TypeDefinition, out: &mut Output) -> (done:
        Result<(), FragmentGeneratorError>)
        ensures
            stepped(done, old(out)@, final(out)@, emit(registry.types@, self@, old(out)@, *def)),
    {
        reveal(emit);
        match def {
            TypeDefinition::Scalar { .. } => Ok(()),
            TypeDefinition::Enum { .. } => Ok(()),
            TypeDefinition::Interface { name, fields, implements } => {
                match self.write_fragment(registry, &out.resolved, name, implements, fields, false) {
                    Err(e) => Err(e),
                    Ok((text, kept)) => {
                        out.push(name, text, kept);
                        Ok(())
                    },
                }
            },
            TypeDefinition::Object { name, fields, implements, introspection } => {
                if *introspection {
                    return Ok(());
                }
                match self.write_fragment(
                    registry,
                    &out.resolved,
                    name,
                    implements,
                    fields,
                    self.add_typename,
                ) {
                    Err(e) => Err(e),
                    Ok((text, kept)) => {
                        out.push(name, text, kept);
                        Ok(())
                    },
                }
            },
            TypeDefinition::Union { name, members } => {
                let text = self.write_union_fragment(name, members);
                proof {
                    lemma_names_push(out.blocks@, text);
                }
                out.blocks.push(text);
                Ok(())
            },
            TypeDefinition::InputObject { name, fields } => {
                match self.write_input_fragment(registry, name, fields) {
                    Err(e) => Err(e),
                    Ok((text, kept)) => {
                        out.push(name, text, kept);
                        Ok(())
                    },
                }
            },
        }
    }

    /// Emits those types of the registry that are of `kind`, in order.
    pub fn emit_kind(&self, registry: &TypeRegistry, kind: TypeKind, out: &mut Output) -> (done:
        Result<(), FragmentGeneratorError>)
        ensures
            match done {
                Ok(()) => emit_all(
                    registry.types@,
                    self@,
                    kind,
                    registry.types@.len(),
                    old(out)@,
                ) == Ok::<RunState, Failure>(final(out)@),
                Err(e) => emit_all(
                    registry.types@,
                    self@,
                    kind,
                    registry.types@.len(),
                    old(out)@,
                ) == Err::<RunState, Failure>(e@),
            },
    {
        let ghost start = old(out)@;
        let mut i: usize = 0;
        while i < registry.types.len()
            invariant
                i <= registry.types@.len(),
                start == old(out)@,
                emit_all(registry.types@, self@, kind, i as nat, start) == Ok::<
                    RunState,
                    Failure,
                >(out@),
            decreases registry.types@.len() - i,
        {
            let def = &registry.types[i];
            if def.kind() == kind {
                match self.emit(registry, def, out) {
                    Err(e) => {
                        proof {
                            lemma_emit_all_fails(
                                registry.types@,
                                self@,
                                kind,
                                (i + 1) as nat,
                                registry.types@.len(),
                                start,
                            );
                        }
                        return Err(e);
                    },
                    Ok(()) => {},
                }
            }
            i += 1;
        }
        Ok(())
    }
}

/// A failure among the first types is the failure of the whole pass.
pub proof fn lemma_emit_all_fails(
    types: Seq<TypeDefinition>,
    opts: Options,
    kind: TypeKind,
    k: nat,
    n: nat,
    state: RunState,
)
    requires
        k <= n,
        emit_all(types, opts, kind, k, state) is Err,
    ensures
        emit_all(types, opts, kind, n, state) == emit_all(types, opts, kind, k, state),
    decreases n,
{
    if k < n {
        lemma_emit_all_fails(types, opts, kind, k, (n - 1) as nat, state);
    }
}

/// The places of the interfaces in the registry, in order.
pub fn interfaces(registry: &TypeRegistry) -> (worklist: Vec<usize>)
    ensures
        worklist@ == interface_indices(registry.types@, registry.types@.len()),
        forall|k: int| 0 <= k < worklist@.len() ==> worklist@[k] < registry.types@.len(),
{
    let mut worklist: Vec<usize> = Vec::new();
    let mut i: usize = 0;
    while i < registry.types.len()
        invariant
            i <= registry.types@.len(),
            worklist@ == interface_indices(registry.types@, i as nat),
            forall|k: int| 0 <= k < worklist@.len() ==> worklist@[k] < i,
        decreases registry.types@.len() - i,
    {
        if registry.types[i].kind() == TypeKind::Interface {
            worklist.push(i);
        }
        i += 1;
    }
    worklist
}

/// The first of the names that is the name of no type in the registry.
pub fn find_unknown_reference<'a>(registry: &TypeRegistry, implements: &'a Vec<String>) -> (unknown:
    Option<&'a String>)
    ensures
        match unknown {
            Some(name) => unknown_reference(registry.types@, implements@) == Some(name@),
            None => unknown_reference(registry.types@, implements@) is None,
        },
{
    let mut i: usize = 0;
    while i < implements.len()
        invariant
            i <= implements@.len(),
            unknown_reference(registry.types@, implements@.take(i as int)) is None,
        decreases implements@.len() - i,
    {
        proof {
            assert(implements@.take(i + 1).drop_last() =~= implements@.take(i as int));
        }
        if registry.lookup(&implements[i]).is_none() {
            proof {
                lemma_unknown_stays(registry.types@, implements@, i + 1);
            }
            return Some(&implements[i]);
        }
        i += 1;
    }
    proof {
        assert(implements@.take(implements@.len() as int) =~= implements@);
    }
    None
}

/// Whether every one of the names has an entry in `resolved`.
pub fn is_ready(resolved: &ResolvedFieldSet, implements: &Vec<String>) -> (ready: bool)
    ensures
        ready == all_resolved(resolved@, implements@),
{
    let mut i: usize = 0;
    while i < implements.len()
        invariant
            i <= implements@.len(),
            forall|k: int| 0 <= k < i ==> resolved@.contains_key((#[trigger] implements@[k])@),
        decreases implements@.len() - i,
    {
        if resolved.lookup(&implements[i]).is_none() {
            return false;
        }
        i += 1;
    }
    true
}

impl FragmentGenerator {
    /// Emits the interfaces, each after the interfaces it implements. Fails
    /// when one of them implements what is no type at all, and when those
    /// still outstanding wait on one another.
    pub fn resolve_interfaces(&self, registry: &TypeRegistry, out: &mut Output) -> (done: Result<(), FragmentGeneratorError>)
        ensures
            match done {
                Ok(()) => resolve(
                    registry.types@,
                    self@,
                    interface_indices(registry.types@, registry.types@.len()),
                    0,
                    old(out)@,
                ) == Ok::<RunState, Failure>(final(out)@),
                Err(e) => resolve(
                    registry.types@,
                    self@,
                    interface_indices(registry.types@, registry.types@.len()),
                    0,
                    old(out)@,
                ) == Err::<RunState, Failure>(e@),
            },
    {
        let mut worklist = interfaces(registry);
        let mut retries: usize = 0;
        let ghost goal = resolve(registry.types@, self@, worklist@, 0, old(out)@);
        while worklist.len() > 0
            invariant
                goal == resolve(
                    registry.types@,
                    self@,
                    interface_indices(registry.types@, registry.types@.len()),
                    0,
                    old(out)@,
                ),
                forall|k: int| 0 <= k < worklist@.len() ==> worklist@[k] < registry.types@.len(),
                retries <= worklist@.len(),
                resolve(registry.types@, self@, worklist@, retries as nat, out@) == goal,
            decreases worklist@.len(), worklist@.len() - retries,
        {
            let ghost queued = worklist@;
            let first = worklist.remove(0);
            proof {
                assert(worklist@ =~= queued.drop_first());
            }
            let def = &registry.types[first];
            let (unknown, ready) = match def {
                TypeDefinition::Interface { implements, .. } => (
                    find_unknown_reference(registry, implements),
                    is_ready(&out.resolved, implements),
                ),
                TypeDefinition::Object { implements, .. } => (
                    find_unknown_reference(registry, implements),
                    is_ready(&out.resolved, implements),
                ),
                _ => (None, true),
            };
            if let Some(name) = unknown {
                return Err(FragmentGeneratorError::UnresolvedType(name.clone()));
            }
            if ready {
                match self.emit(registry, def, out) {
                    Err(e) => {
                        return Err(e);
                    },
                    Ok(()) => {
                        retries = 0;
                    },
                }
            } else if retries > worklist.len() {
                return Err(FragmentGeneratorError::DependencyCycle(def.name().clone()));
            } else {
                worklist.push(first);
                retries += 1;
            }
        }
        Ok(())
    }

    /// Emits every fragment of the registry and joins them, a blank line
    /// between each two.
    pub fn execute(&self, registry: &TypeRegistry) -> (text: Result<String, FragmentGeneratorError>)
        ensures
            agrees(text, generated(registry.types@, self@)),
    {
        let mut out = Output::new();
        match self.resolve_interfaces(registry, &mut out) {
            Err(e) => {
                return Err(e);
            },
            Ok(()) => {},
        }
        match self.emit_kind(registry, TypeKind::Union, &mut out) {
            Err(e) => {
                return Err(e);
            },
            Ok(()) => {},
        }
        match self.emit_kind(registry, TypeKind::Object, &mut out) {
            Err(e) => {
                return Err(e);
            },
            Ok(()) => {},
        }
        match self.emit_kind(registry, TypeKind::InputObject, &mut out) {
            Err(e) => {
                return Err(e);
            },
            Ok(()) => {},
        }
        Ok(join_strings(&out.blocks, "\n"))
    }
}

/// Renders one fragment for every interface, union, object and input object
/// of `registry`, each named by `prefix`, the type's name and `suffix`.
/// Interfaces come first, each after the interfaces it implements, then
/// unions, objects and input objects. Any failure ends the run without text.
pub fn generate(registry: &TypeRegistry, prefix: &str, suffix: &str, add_typename: bool) -> (text:
    Result<String, FragmentGeneratorError>)
    ensures
        agrees(
            text,
            generated(registry.types@, (Options { prefix: prefix@, suffix: suffix@, add_typename })),
        ),
{
    FragmentGenerator::new(prefix, suffix, add_typename).execute(registry)
}

} // verus!
