//! What holds of every fragment, whatever the schema.

use crate::error::Failure;
use crate::arguments::arglist_text;
use crate::fragment::{
    field_renderer, field_text, fragment_name, header, inherited_names, kept_names, leaf_line,
    member_block, member_blocks, own_field_text, placeholder, selection_fragment,
    simple_field_text, spread_line, spread_renderer, typename_line, Options,
};
use crate::generator::{
    all_resolved, emit, generated, initial_state, interface_indices, resolve, unknown_reference,
    RunState,
};
use crate::schema::{declares, kind_of, FieldDefinition, TypeDefinition, TypeKind};
use crate::text::{collect, concat};
use vstd::prelude::*;

verus! {

/// Where collecting succeeds, there is one text for each item, in the order
/// of the items, and it is what the item renders to.
pub proof fn lemma_collect_ok<T>(
    items: Seq<T>,
    f: spec_fn(T) -> Result<Seq<char>, Failure>,
)
    requires
        collect(items, f) is Ok,
    ensures
        collect(items, f)->Ok_0.len() == items.len(),
        forall|i: int|
            0 <= i < items.len() ==> f(#[trigger] items[i]) == Ok::<
                Seq<char>,
                Failure,
            >(collect(items, f)->Ok_0[i]),
    decreases items.len(),
{
    if items.len() > 0 {
        lemma_collect_ok(items.drop_last(), f);
        assert forall|i: int| 0 <= i < items.len() implies f(#[trigger] items[i]) == Ok::<
            Seq<char>,
            Failure,
        >(collect(items, f)->Ok_0[i]) by {
            if i < items.len() - 1 {
                assert(items.drop_last()[i] == items[i]);
            }
        }
    }
}

/// Two renderers that agree on every item collect to the same.
pub proof fn lemma_collect_same<T>(
    items: Seq<T>,
    f: spec_fn(T) -> Result<Seq<char>, Failure>,
    g: spec_fn(T) -> Result<Seq<char>, Failure>,
)
    requires
        forall|i: int| 0 <= i < items.len() ==> f(#[trigger] items[i]) == g(items[i]),
    ensures
        collect(items, f) == collect(items, g),
    decreases items.len(),
{
    if items.len() > 0 {
        assert forall|i: int| 0 <= i < items.drop_last().len() implies f(
            #[trigger] items.drop_last()[i],
        ) == g(items.drop_last()[i]) by {
            assert(items.drop_last()[i] == items[i]);
        }
        lemma_collect_same(items.drop_last(), f, g);
        assert(items.last() == items[items.len() - 1]);
    }
}

/// Whether the underlying type of every field is a scalar or an enum.
pub open spec fn all_leaves(types: Seq<TypeDefinition>, fields: Seq<FieldDefinition>) -> bool {
    forall|i: int|
        0 <= i < fields.len() ==> declares(types, (#[trigger] fields[i]).ty.underlying())
            && kind_of(types, fields[i].ty.underlying()).is_leaf()
}

/// [`simple_field_text`] as a renderer of fields.
pub open spec fn leaf_renderer(types: Seq<TypeDefinition>) -> spec_fn(FieldDefinition) -> Result<
    Seq<char>,
    Failure,
> {
    |field: FieldDefinition| simple_field_text(types, field.name@, field.arguments@)
}

/// A type that implements nothing and has only leaf fields gets a fragment
/// of the header, the type marker where it is asked for, one live line for
/// each declared field in the order of declaration, and the closing brace.
pub proof fn lemma_plain_fragment(
    types: Seq<TypeDefinition>,
    opts: Options,
    resolved: Map<Seq<char>, Seq<Seq<char>>>,
    name: Seq<char>,
    fields: Seq<FieldDefinition>,
    add_typename: bool,
)
    requires
        all_leaves(types, fields),
    ensures
        selection_fragment(types, opts, resolved, name, Seq::empty(), fields, add_typename)
            == match collect(fields, leaf_renderer(types)) {
            Err(e) => Err::<Seq<char>, Failure>(e),
            Ok(lines) => Ok(
                header(opts, name) + typename_line(add_typename) + concat(lines) + "}\n"@,
            ),
        },
        collect(fields, leaf_renderer(types)) matches Ok(lines) ==> lines.len() == fields.len()
            && forall|i: int|
            0 <= i < fields.len() ==> simple_field_text(
                types,
                (#[trigger] fields[i]).name@,
                fields[i].arguments@,
            ) == Ok::<Seq<char>, Failure>(lines[i]),
{
    let none = Seq::<String>::empty();
    let inherited = inherited_names(resolved, none);
    assert(inherited =~= Seq::empty());
    assert forall|i: int| 0 <= i < fields.len() implies field_renderer(types, opts, inherited)(
        #[trigger] fields[i],
    ) == leaf_renderer(types)(fields[i]) by {
        assert(!inherited.contains(fields[i].name@));
    }
    lemma_collect_same(fields, field_renderer(types, opts, inherited), leaf_renderer(types));
    assert(collect(none, spread_renderer(resolved, opts)) == Ok::<
        Seq<Seq<char>>,
        Failure,
    >(Seq::empty()));
    assert(concat(Seq::<Seq<char>>::empty()) =~= Seq::<char>::empty());
    if let Ok(lines) = collect(fields, leaf_renderer(types)) {
        lemma_collect_ok(fields, leaf_renderer(types));
        assert forall|i: int| 0 <= i < fields.len() implies simple_field_text(
            types,
            (#[trigger] fields[i]).name@,
            fields[i].arguments@,
        ) == Ok::<Seq<char>, Failure>(lines[i]) by {
            assert(leaf_renderer(types)(fields[i]) == Ok::<Seq<char>, Failure>(lines[i]));
        }
        assert(header(opts, name) + typename_line(add_typename) + concat(
            Seq::<Seq<char>>::empty(),
        ) + concat(lines) + "}\n"@ =~= header(opts, name) + typename_line(add_typename) + concat(
            lines,
        ) + "}\n"@);
    }
}

/// What an implemented interface recorded is among the inherited names.
pub proof fn lemma_inherited_holds(
    resolved: Map<Seq<char>, Seq<Seq<char>>>,
    implements: Seq<String>,
    k: int,
    field: Seq<char>,
)
    requires
        0 <= k < implements.len(),
        resolved.contains_key(implements[k]@),
        resolved[implements[k]@].contains(field),
    ensures
        inherited_names(resolved, implements).contains(field),
    decreases implements.len(),
{
    let before = inherited_names(resolved, implements.drop_last());
    if k == implements.len() - 1 {
        let theirs = resolved[implements[k]@];
        let at = choose|i: int| 0 <= i < theirs.len() && theirs[i] == field;
        assert((before + theirs)[before.len() + at] == field);
    } else {
        assert(implements.drop_last()[k] == implements[k]);
        lemma_inherited_holds(resolved, implements.drop_last(), k, field);
        let at = choose|i: int| 0 <= i < before.len() && before[i] == field;
        if resolved.contains_key(implements.last()@) {
            assert((before + resolved[implements.last()@])[at] == field);
        }
    }
}

/// No inherited name is kept.
pub proof fn lemma_kept_are_own(
    fields: Seq<FieldDefinition>,
    inherited: Seq<Seq<char>>,
    field: Seq<char>,
)
    requires
        kept_names(fields, inherited).contains(field),
    ensures
        !inherited.contains(field),
        exists|i: int| 0 <= i < fields.len() && (#[trigger] fields[i]).name@ == field,
    decreases fields.len(),
{
    if fields.len() > 0 {
        let before = kept_names(fields.drop_last(), inherited);
        let last = fields.last().name@;
        if !inherited.contains(last) && last == field {
            assert(fields[fields.len() - 1].name@ == field);
        } else {
            if !inherited.contains(last) {
                let at = choose|i: int|
                    0 <= i < before.push(last).len() && before.push(last)[i] == field;
                assert(before[at] == field);
            }
            lemma_kept_are_own(fields.drop_last(), inherited, field);
            let i = choose|i: int|
                0 <= i < fields.drop_last().len() && (#[trigger] fields.drop_last()[i]).name@
                    == field;
            assert(fields[i].name@ == field);
        }
    }
}

/// In the fragment of a type that implements an interface, a field that the
/// interface recorded has no line of its own and is not recorded again; and
/// there is one spread for each implemented interface, in order, each to
/// the fragment of that interface.
pub proof fn lemma_inherited_fields_left_out(
    types: Seq<TypeDefinition>,
    opts: Options,
    resolved: Map<Seq<char>, Seq<Seq<char>>>,
    implements: Seq<String>,
    fields: Seq<FieldDefinition>,
    k: int,
    i: int,
)
    requires
        0 <= k < implements.len(),
        0 <= i < fields.len(),
        resolved.contains_key(implements[k]@),
        resolved[implements[k]@].contains(fields[i].name@),
    ensures
        own_field_text(types, opts, inherited_names(resolved, implements), fields[i]) == Ok::<
            Seq<char>,
            Failure,
        >(Seq::empty()),
        !kept_names(fields, inherited_names(resolved, implements)).contains(fields[i].name@),
        collect(implements, spread_renderer(resolved, opts)) matches Ok(spreads) ==> spreads.len()
            == implements.len() && forall|j: int|
            0 <= j < implements.len() ==> #[trigger] spreads[j] == spread_line(
                opts,
                implements[j]@,
            ),
{
    let inherited = inherited_names(resolved, implements);
    lemma_inherited_holds(resolved, implements, k, fields[i].name@);
    if kept_names(fields, inherited).contains(fields[i].name@) {
        lemma_kept_are_own(fields, inherited, fields[i].name@);
    }
    if let Ok(spreads) = collect(implements, spread_renderer(resolved, opts)) {
        lemma_collect_ok(implements, spread_renderer(resolved, opts));
        assert forall|j: int| 0 <= j < implements.len() implies #[trigger] spreads[j]
            == spread_line(opts, implements[j]@) by {
            assert(spread_renderer(resolved, opts)(implements[j]) == Ok::<
                Seq<char>,
                Failure,
            >(spreads[j]));
        }
    }
}

/// The body of a union's fragment is the inline fragments of its members,
/// one for each in the order of declaration, and nothing else.
pub proof fn lemma_union_members(opts: Options, members: Seq<String>)
    ensures
        member_blocks(opts, members) == concat(
            Seq::new(members.len(), |i: int| member_block(opts, members[i]@)),
        ),
    decreases members.len(),
{
    let blocks = Seq::new(members.len(), |i: int| member_block(opts, members[i]@));
    if members.len() > 0 {
        lemma_union_members(opts, members.drop_last());
        assert(blocks.drop_last() =~= Seq::new(
            members.drop_last().len(),
            |i: int| member_block(opts, members.drop_last()[i]@),
        ));
    }
}

/// Two types with one fragment name have one name.
pub proof fn lemma_fragment_name_injective(opts: Options, a: Seq<char>, b: Seq<char>)
    requires
        fragment_name(opts, a) == fragment_name(opts, b),
    ensures
        a == b,
{
    let fa = fragment_name(opts, a);
    let fb = fragment_name(opts, b);
    assert(fa.len() == opts.prefix.len() + a.len() + opts.suffix.len());
    assert(fb.len() == opts.prefix.len() + b.len() + opts.suffix.len());
    assert forall|i: int| 0 <= i < a.len() implies a[i] == b[i] by {
        assert(fa[opts.prefix.len() + i] == a[i]);
        assert(fb[opts.prefix.len() + i] == b[i]);
    }
    assert(a =~= b);
}

/// A field is rendered by the kind of its underlying type alone: a leaf as
/// a live line and never as a comment block, an object, interface or union
/// as a comment block and never as a live line, and nothing else at all.
pub proof fn lemma_field_rendering(types: Seq<TypeDefinition>, opts: Options, field: FieldDefinition)
    ensures
        field_text(types, opts, field) matches Ok(text) ==> {
            let target = field.ty.underlying();
            &&& declares(types, target)
            &&& kind_of(types, target) != TypeKind::InputObject
            &&& kind_of(types, target).is_leaf() ==> (arglist_text(types, "  "@, field.arguments@)
                matches Ok(arglist) && text == leaf_line(field.name@, arglist))
            &&& !kind_of(types, target).is_leaf() ==> (arglist_text(
                types,
                "  # "@,
                field.arguments@,
            ) matches Ok(arglist) && text == placeholder(
                field.name@,
                arglist,
                fragment_name(opts, target),
            ) && "  # "@.is_prefix_of(text))
        },
{
    if let Ok(text) = field_text(types, opts, field) {
        let target = field.ty.underlying();
        if !kind_of(types, target).is_leaf() {
            assert(text.subrange(0, "  # "@.len() as int) =~= "  # "@);
        }
    }
}

/// Whether none of the outstanding interfaces can be emitted, though all
/// that they implement are types of the schema.
pub open spec fn stuck(types: Seq<TypeDefinition>, worklist: Seq<usize>, state: RunState) -> bool {
    &&& worklist.len() > 0
    &&& forall|k: int|
        0 <= k < worklist.len() ==> {
            let waiting = types[(#[trigger] worklist[k]) as int].spec_implements();
            unknown_reference(types, waiting) is None && !all_resolved(state.resolved, waiting)
        }
}

/// A type is emitted only after everything that it implements: where the
/// fragment of an object or interface comes out, each of its interfaces has
/// been recorded.
pub proof fn lemma_emitted_after_interfaces(
    types: Seq<TypeDefinition>,
    opts: Options,
    state: RunState,
    def: TypeDefinition,
)
    requires
        emit(types, opts, state, def) is Ok,
        def.gets_fragment(),
    ensures
        all_resolved(state.resolved, def.spec_implements()),
{
    reveal(emit);
    let implements = def.spec_implements();
    if implements.len() > 0 {
        lemma_collect_ok(implements, spread_renderer(state.resolved, opts));
        assert forall|k: int| 0 <= k < implements.len() implies state.resolved.contains_key(
            (#[trigger] implements[k])@,
        ) by {
            assert(spread_renderer(state.resolved, opts)(implements[k]) is Ok);
        }
    }
}

/// What was recorded stays as it was recorded, and every fragment that was
/// emitted stays in its place.
pub proof fn lemma_emit_keeps(
    types: Seq<TypeDefinition>,
    opts: Options,
    state: RunState,
    def: TypeDefinition,
)
    requires
        emit(types, opts, state, def) is Ok,
    ensures
        ({
            let next = emit(types, opts, state, def)->Ok_0;
            &&& state.blocks.is_prefix_of(next.blocks)
            &&& forall|name: Seq<char>| #[trigger]
                state.resolved.contains_key(name) ==> next.resolved.contains_key(name)
                    && next.resolved[name] == state.resolved[name]
        }),
{
    reveal(emit);
}

/// The interface that is at the front when the retries run out.
pub open spec fn last_tried(worklist: Seq<usize>, retries: nat) -> int {
    if retries == 0 {
        worklist[0] as int
    } else {
        worklist[worklist.len() - retries] as int
    }
}

/// Interfaces that wait on one another end the run with a dependency cycle:
/// where none of the outstanding ones can be emitted, nothing is emitted
/// and nothing is dropped, and the failure names the one that was tried
/// last.
pub proof fn lemma_cycle_fails(
    types: Seq<TypeDefinition>,
    opts: Options,
    worklist: Seq<usize>,
    retries: nat,
    state: RunState,
)
    requires
        stuck(types, worklist, state),
        retries <= worklist.len(),
    ensures
        resolve(types, opts, worklist, retries, state) == Err::<RunState, Failure>(
            Failure::DependencyCycle(types[last_tried(worklist, retries)].spec_name()),
        ),
    decreases worklist.len() - retries,
{
    assert(unknown_reference(types, types[worklist[0] as int].spec_implements()) is None);
    if retries < worklist.len() {
        let turned = worklist.drop_first().push(worklist[0]);
        assert forall|k: int| 0 <= k < turned.len() implies {
            let waiting = types[(#[trigger] turned[k]) as int].spec_implements();
            unknown_reference(types, waiting) is None && !all_resolved(state.resolved, waiting)
        } by {
            if k < turned.len() - 1 {
                assert(turned[k] == worklist[k + 1]);
            } else {
                assert(turned[k] == worklist[0]);
            }
        }
        lemma_cycle_fails(types, opts, turned, retries + 1, state);
    }
}

/// The worklist of a registry holds places of interfaces, and holds one as
/// soon as there is an interface.
pub proof fn lemma_interface_indices(types: Seq<TypeDefinition>, n: nat)
    requires
        n <= types.len() <= usize::MAX,
    ensures
        forall|k: int|
            0 <= k < interface_indices(types, n).len() ==> {
                let at = (#[trigger] interface_indices(types, n)[k]) as int;
                0 <= at < n && types[at].spec_kind() == TypeKind::Interface
            },
        (exists|i: int| 0 <= i < n && (#[trigger] types[i]).spec_kind() == TypeKind::Interface)
            ==> interface_indices(types, n).len() > 0,
    decreases n,
{
    if n > 0 {
        lemma_interface_indices(types, (n - 1) as nat);
        if types[n - 1].spec_kind() != TypeKind::Interface {
            if exists|i: int| 0 <= i < n && (#[trigger] types[i]).spec_kind() == TypeKind::Interface {
                let i = choose|i: int|
                    0 <= i < n && (#[trigger] types[i]).spec_kind() == TypeKind::Interface;
                assert(0 <= i < n - 1 && types[i].spec_kind() == TypeKind::Interface);
            }
        }
    }
}

/// Whether every interface implements something, and only types of the
/// schema.
pub open spec fn no_interface_is_free(types: Seq<TypeDefinition>) -> bool {
    forall|i: int|
        0 <= i < types.len() && (#[trigger] types[i]).spec_kind() == TypeKind::Interface
            ==> types[i].spec_implements().len() > 0 && unknown_reference(
            types,
            types[i].spec_implements(),
        ) is None
}

/// A schema whose interfaces all wait on some type of the schema, as two
/// that implement each other do, fails with a dependency cycle: the run
/// neither hangs nor leaves one of them out, and names the first interface.
pub proof fn lemma_no_free_interface_fails(types: Seq<TypeDefinition>, opts: Options)
    requires
        types.len() <= usize::MAX,
        no_interface_is_free(types),
        exists|i: int| 0 <= i < types.len() && (#[trigger] types[i]).spec_kind() == TypeKind::Interface,
    ensures
        generated(types, opts) == Err::<Seq<char>, Failure>(
            Failure::DependencyCycle(
                types[interface_indices(types, types.len())[0] as int].spec_name(),
            ),
        ),
{
    let worklist = interface_indices(types, types.len());
    lemma_interface_indices(types, types.len());
    assert forall|k: int| 0 <= k < worklist.len() implies {
        let waiting = types[(#[trigger] worklist[k]) as int].spec_implements();
        unknown_reference(types, waiting) is None && !all_resolved(
            initial_state().resolved,
            waiting,
        )
    } by {
        let at = worklist[k] as int;
        let waiting = types[at].spec_implements();
        assert(types[at].spec_kind() == TypeKind::Interface);
        assert(!initial_state().resolved.contains_key(waiting[0]@));
    }
    lemma_cycle_fails(types, opts, worklist, 0, initial_state());
}

} // verus!
