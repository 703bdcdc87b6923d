use crate::arguments::{arglist_text, format_arglist};
use crate::error::{Failure, FragmentGeneratorError};
use crate::schema::{
    declares, kind_of, FieldDefinition, InputValueDefinition, Scalarity, TypeDefinition,
    TypeKind, TypeRegistry,
};
use crate::text::{
    agrees, collect, concat, concat_strings, contains_name, lemma_collect_fails,
    lemma_collect_step, lemma_names_push, names,
};
use vstd::prelude::*;

verus! {

/// What a generator was set up with.
pub ghost struct Options {
    pub prefix: Seq<char>,
    pub suffix: Seq<char>,
    pub add_typename: bool,
}

/// Renders fragments under one naming scheme.
#[derive(Debug)]
pub struct FragmentGenerator {
    pub prefix: String,
    pub suffix: String,
    pub add_typename: bool,
}

impl View for FragmentGenerator {
    type V = Options;

    open spec fn view(&self) -> Options {
        Options { prefix: self.prefix@, suffix: self.suffix@, add_typename: self.add_typename }
    }
}

/// The field names that one emitted type declares by itself.
#[derive(Debug)]
pub struct ResolvedEntry {
    pub name: String,
    pub fields: Vec<String>,
}

/// The types emitted so far, each with the field names it declares by itself.
/// An entry, once made, stays as it is.
#[derive(Debug)]
pub struct ResolvedFieldSet {
    pub entries: Vec<ResolvedEntry>,
}

/// Adds an entry under `name` unless there is one.
pub open spec fn record(
    resolved: Map<Seq<char>, Seq<Seq<char>>>,
    name: Seq<char>,
    fields: Seq<Seq<char>>,
) -> Map<Seq<char>, Seq<Seq<char>>> {
    if resolved.contains_key(name) {
        resolved
    } else {
        resolved.insert(name, fields)
    }
}

/// The map that a list of entries stands for.
pub open spec fn resolved_map(entries: Seq<ResolvedEntry>) -> Map<Seq<char>, Seq<Seq<char>>>
    decreases entries.len(),
{
    if entries.len() == 0 {
        Map::empty()
    } else {
        record(
            resolved_map(entries.drop_last()),
            entries.last().name@,
            names(entries.last().fields@),
        )
    }
}

/// What the first entries say of a name, all of them say.
pub proof fn lemma_resolved_stable(entries: Seq<ResolvedEntry>, k: int, name: Seq<char>)
    requires
        0 <= k <= entries.len(),
        resolved_map(entries.take(k)).contains_key(name),
    ensures
        resolved_map(entries).contains_key(name),
        resolved_map(entries)[name] == resolved_map(entries.take(k))[name],
    decreases entries.len(),
{
    if k == entries.len() {
        assert(entries.take(k) =~= entries);
    } else {
        assert(entries.drop_last().take(k) =~= entries.take(k));
        lemma_resolved_stable(entries.drop_last(), k, name);
    }
}

impl View for ResolvedFieldSet {
    type V = Map<Seq<char>, Seq<Seq<char>>>;

    open spec fn view(&self) -> Map<Seq<char>, Seq<Seq<char>>> {
        resolved_map(self.entries@)
    }
}

impl ResolvedFieldSet {
    /// A set in which nothing is recorded.
    pub fn new() -> (set: ResolvedFieldSet)
        ensures
            set@ == Map::<Seq<char>, Seq<Seq<char>>>::empty(),
    {
        ResolvedFieldSet { entries: Vec::new() }
    }

    /// The field names recorded under `name`, if it was recorded.
    pub fn lookup(&self, name: &String) -> (found: Option<&Vec<String>>)
        ensures
            found.is_some() == self@.contains_key(name@),
            found.is_some() ==> names(found.unwrap()@) == self@[name@],
    {
        let mut i: usize = 0;
        while i < self.entries.len()
            invariant
                i <= self.entries@.len(),
                !resolved_map(self.entries@.take(i as int)).contains_key(name@),
            decreases self.entries@.len() - i,
        {
            proof {
                assert(self.entries@.take(i + 1).drop_last() =~= self.entries@.take(i as int));
            }
            if self.entries[i].name == *name {
                proof {
                    lemma_resolved_stable(self.entries@, i + 1, name@);
                }
                return Some(&self.entries[i].fields);
            }
            i += 1;
        }
        proof {
            assert(self.entries@.take(self.entries@.len() as int) =~= self.entries@);
        }
        None
    }

    /// Records the field names of a type that was just emitted.
    pub fn insert(&mut self, name: String, fields: Vec<String>)
        ensures
            final(self)@ == record(old(self)@, name@, names(fields@)),
    {
        proof {
            let entry = ResolvedEntry { name, fields };
            assert(self.entries@.push(entry).drop_last() =~= self.entries@);
        }
        self.entries.push(ResolvedEntry { name, fields });
    }
}

/// The name of the fragment for the type `name`.
pub open spec fn fragment_name(opts: Options, name: Seq<char>) -> Seq<char> {
    opts.prefix + name + opts.suffix
}

/// The first line of a fragment.
pub open spec fn header(opts: Options, name: Seq<char>) -> Seq<char> {
    "fragment "@ + fragment_name(opts, name) + " on "@ + name + " {\n"@
}

/// A field that is selected as it stands.
pub open spec fn leaf_line(name: Seq<char>, arglist: Seq<char>) -> Seq<char> {
    "  "@ + name + arglist + "\n"@
}

/// A field that needs a selection beneath it: three commented lines that
/// propose the fragment of the field's type.
pub open spec fn placeholder(name: Seq<char>, arglist: Seq<char>, target: Seq<char>) -> Seq<char> {
    "  # "@ + name + arglist + " {\n"@ + "  #   ..."@ + target + "\n"@ + "  # }\n"@
}

/// The line of a leaf field with its arguments.
pub open spec fn simple_field_text(
    types: Seq<TypeDefinition>,
    name: Seq<char>,
    args: Seq<InputValueDefinition>,
) -> Result<Seq<char>, Failure> {
    match arglist_text(types, "  "@, args) {
        Ok(arglist) => Ok(leaf_line(name, arglist)),
        Err(e) => Err(e),
    }
}

/// The comment block of a compound field whose underlying type is `target`.
pub open spec fn complex_field_text(
    types: Seq<TypeDefinition>,
    opts: Options,
    name: Seq<char>,
    target: Seq<char>,
    args: Seq<InputValueDefinition>,
) -> Result<Seq<char>, Failure> {
    match arglist_text(types, "  # "@, args) {
        Ok(arglist) => Ok(placeholder(name, arglist, fragment_name(opts, target))),
        Err(e) => Err(e),
    }
}

/// The lines of one field of an object or interface.
pub open spec fn field_text(types: Seq<TypeDefinition>, opts: Options, field: FieldDefinition) -> Result<
    Seq<char>,
    Failure,
> {
    let target = field.ty.underlying();
    if !declares(types, target) {
        Err(Failure::UnresolvedType(target))
    } else {
        match kind_of(types, target) {
            TypeKind::Scalar | TypeKind::Enum => simple_field_text(
                types,
                field.name@,
                field.arguments@,
            ),
            TypeKind::InputObject => Err(Failure::UnsupportedFieldType(field.name@)),
            _ => complex_field_text(types, opts, field.name@, target, field.arguments@),
        }
    }
}

/// The lines of a field within its type's fragment: none where the field is
/// inherited.
pub open spec fn own_field_text(
    types: Seq<TypeDefinition>,
    opts: Options,
    inherited: Seq<Seq<char>>,
    field: FieldDefinition,
) -> Result<Seq<char>, Failure> {
    if inherited.contains(field.name@) {
        Ok(Seq::empty())
    } else {
        field_text(types, opts, field)
    }
}

/// [`own_field_text`] as a renderer of fields.
pub open spec fn field_renderer(
    types: Seq<TypeDefinition>,
    opts: Options,
    inherited: Seq<Seq<char>>,
) -> spec_fn(FieldDefinition) -> Result<Seq<char>, Failure> {
    |field: FieldDefinition| own_field_text(types, opts, inherited, field)
}

/// The names of the fields that are not inherited, in order.
pub open spec fn kept_names(fields: Seq<FieldDefinition>, inherited: Seq<Seq<char>>) -> Seq<
    Seq<char>,
>
    decreases fields.len(),
{
    if fields.len() == 0 {
        Seq::empty()
    } else if inherited.contains(fields.last().name@) {
        kept_names(fields.drop_last(), inherited)
    } else {
        kept_names(fields.drop_last(), inherited).push(fields.last().name@)
    }
}

/// One field more is kept unless it is inherited.
pub proof fn lemma_kept_step(fields: Seq<FieldDefinition>, inherited: Seq<Seq<char>>, k: int)
    requires
        0 <= k < fields.len(),
    ensures
        kept_names(fields.take(k + 1), inherited) == if inherited.contains(fields[k].name@) {
            kept_names(fields.take(k), inherited)
        } else {
            kept_names(fields.take(k), inherited).push(fields[k].name@)
        },
{
    assert(fields.take(k + 1).drop_last() =~= fields.take(k));
}

/// A reference to the fragment of the type `name`.
pub open spec fn spread_line(opts: Options, name: Seq<char>) -> Seq<char> {
    "  ..."@ + fragment_name(opts, name) + "\n"@
}

/// The spread for one implemented interface, which must have been emitted.
pub open spec fn spread_text(
    resolved: Map<Seq<char>, Seq<Seq<char>>>,
    opts: Options,
    interface: String,
) -> Result<Seq<char>, Failure> {
    if resolved.contains_key(interface@) {
        Ok(spread_line(opts, interface@))
    } else {
        Err(Failure::UnresolvedType(interface@))
    }
}

/// [`spread_text`] as a renderer of implemented interfaces.
pub open spec fn spread_renderer(resolved: Map<Seq<char>, Seq<Seq<char>>>, opts: Options) -> spec_fn(
    String,
) -> Result<Seq<char>, Failure> {
    |interface: String| spread_text(resolved, opts, interface)
}

/// The field names recorded for the interfaces in `implements`, one list
/// after the other.
pub open spec fn inherited_names(
    resolved: Map<Seq<char>, Seq<Seq<char>>>,
    implements: Seq<String>,
) -> Seq<Seq<char>>
    decreases implements.len(),
{
    if implements.len() == 0 {
        Seq::empty()
    } else if resolved.contains_key(implements.last()@) {
        inherited_names(resolved, implements.drop_last()) + resolved[implements.last()@]
    } else {
        inherited_names(resolved, implements.drop_last())
    }
}

/// The line that marks a concrete type, where one is asked for.
pub open spec fn typename_line(add_typename: bool) -> Seq<char> {
    if add_typename {
        "  __typename\n"@
    } else {
        Seq::empty()
    }
}

/// The fragment of an object or interface: header, type marker, one spread
/// for each implemented interface, the fields that are not inherited, and
/// the closing brace.
pub open spec fn selection_fragment(
    types: Seq<TypeDefinition>,
    opts: Options,
    resolved: Map<Seq<char>, Seq<Seq<char>>>,
    name: Seq<char>,
    implements: Seq<String>,
    fields: Seq<FieldDefinition>,
    add_typename: bool,
) -> Result<Seq<char>, Failure> {
    match collect(implements, spread_renderer(resolved, opts)) {
        Err(e) => Err(e),
        Ok(spreads) => match collect(
            fields,
            field_renderer(types, opts, inherited_names(resolved, implements)),
        ) {
            Err(e) => Err(e),
            Ok(lines) => Ok(
                header(opts, name) + typename_line(add_typename) + concat(spreads) + concat(lines)
                    + "}\n"@,
            ),
        },
    }
}

/// The inline fragment for one member of a union.
pub open spec fn member_block(opts: Options, member: Seq<char>) -> Seq<char> {
    "  ... on "@ + member + " {\n"@ + "    ..."@ + fragment_name(opts, member) + "\n"@ + "  }\n"@
}

/// The inline fragments of the members, in order.
pub open spec fn member_blocks(opts: Options, members: Seq<String>) -> Seq<char>
    decreases members.len(),
{
    if members.len() == 0 {
        Seq::empty()
    } else {
        member_blocks(opts, members.drop_last()) + member_block(opts, members.last()@)
    }
}

/// The fragment of a union: one inline fragment for each member, no field.
pub open spec fn union_fragment(opts: Options, name: Seq<char>, members: Seq<String>) -> Seq<char> {
    header(opts, name) + member_blocks(opts, members) + "}\n"@
}

/// The line of one field of an input object, which has to be a leaf.
pub open spec fn input_field_text(types: Seq<TypeDefinition>, field: InputValueDefinition) -> Result<
    Seq<char>,
    Failure,
> {
    let target = field.ty.underlying();
    if !declares(types, target) {
        Err(Failure::UnresolvedType(target))
    } else if kind_of(types, target).is_leaf() {
        Ok(leaf_line(field.name@, Seq::empty()))
    } else {
        Err(Failure::UnsupportedFieldType(field.name@))
    }
}

/// [`input_field_text`] as a renderer of fields.
pub open spec fn input_field_renderer(types: Seq<TypeDefinition>) -> spec_fn(
    InputValueDefinition,
) -> Result<Seq<char>, Failure> {
    |field: InputValueDefinition| input_field_text(types, field)
}

/// The fragment of an input object.
pub open spec fn input_fragment(
    types: Seq<TypeDefinition>,
    opts: Options,
    name: Seq<char>,
    fields: Seq<InputValueDefinition>,
) -> Result<Seq<char>, Failure> {
    match collect(fields, input_field_renderer(types)) {
        Err(e) => Err(e),
        Ok(lines) => Ok(header(opts, name) + concat(lines) + "}\n"@),
    }
}

/// The names of the fields of an input object.
pub open spec fn value_names(fields: Seq<InputValueDefinition>) -> Seq<Seq<char>> {
    Seq::new(fields.len(), |i: int| fields[i].name@)
}

impl FragmentGenerator {
    /// A generator that names fragments with `prefix` and `suffix`, and marks
    /// objects with their type name if `add_typename` is set.
    pub fn new(prefix: &str, suffix: &str, add_typename: bool) -> (generator: FragmentGenerator)
        ensures
            generator@ == (Options { prefix: prefix@, suffix: suffix@, add_typename }),
    {
        FragmentGenerator {
            prefix: String::from_str(prefix),
            suffix: String::from_str(suffix),
            add_typename,
        }
    }

    /// Prefix, type name and suffix, in that order.
    pub fn fragment_name(&self, owner: &String) -> (name: String)
        ensures
            name@ == fragment_name(self@, owner@),
    {
        let mut out = self.prefix.clone();
        out.append(owner.as_str());
        out.append(self.suffix.as_str());
        out
    }

    /// The line that opens the fragment of the type `owner`.
    pub fn write_header(&self, owner: &String) -> (text: String)
        ensures
            text@ == header(self@, owner@),
    {
        let fragment = self.fragment_name(owner);
        let mut out = String::from_str("fragment ");
        out.append(fragment.as_str());
        out.append(" on ");
        out.append(owner.as_str());
        out.append(" {\n");
        out
    }

    /// A leaf field: its name and its arguments, on a live line.
    pub fn write_simple_field(
        &self,
        registry: &TypeRegistry,
        field_name: &String,
        arguments: &Vec<InputValueDefinition>,
    ) -> (text: Result<String, FragmentGeneratorError>)
        ensures
            agrees(text, simple_field_text(registry.types@, field_name@, arguments@)),
    {
        match format_arglist(registry, arguments, "  ") {
            Err(e) => Err(e),
            Ok(arglist) => {
                let mut out = String::from_str("  ");
                out.append(field_name.as_str());
                out.append(arglist.as_str());
                out.append("\n");
                Ok(out)
            },
        }
    }

    /// A compound field: a commented block that names the fragment of the
    /// field's type, never a live selection.
    pub fn write_complex_field(
        &self,
        registry: &TypeRegistry,
        field_name: &String,
        owner: &String,
        arguments: &Vec<InputValueDefinition>,
    ) -> (text: Result<String, FragmentGeneratorError>)
        ensures
            agrees(
                text,
                complex_field_text(registry.types@, self@, field_name@, owner@, arguments@),
            ),
    {
        let fragment = self.fragment_name(owner);
        match format_arglist(registry, arguments, "  # ") {
            Err(e) => Err(e),
            Ok(arglist) => {
                let mut out = String::from_str("  # ");
                out.append(field_name.as_str());
                out.append(arglist.as_str());
                out.append(" {\n");
                out.append("  #   ...");
                out.append(fragment.as_str());
                out.append("\n");
                out.append("  # }\n");
                Ok(out)
            },
        }
    }

    /// Classifies the field by its underlying type and renders it: a leaf as
    /// a live line, an object, interface or union as a placeholder. A field
    /// of input-object type has no rendering.
    pub fn write_field(&self, registry: &TypeRegistry, field: &FieldDefinition) -> (text: Result<String, FragmentGeneratorError>)
        ensures
            agrees(text, field_text(registry.types@, self@, *field)),
    {
        match registry.classify(&field.ty) {
            Err(e) => Err(e),
            Ok(Scalarity::Leaf) => self.write_simple_field(registry, &field.name, &field.arguments),
            Ok(Scalarity::Compound(def)) => match def.kind() {
                TypeKind::InputObject => Err(
                    FragmentGeneratorError::UnsupportedFieldType(field.name.clone()),
                ),
                _ => self.write_complex_field(
                    registry,
                    &field.name,
                    field.ty.underlying_name(),
                    &field.arguments,
                ),
            },
        }
    }

    /// Renders the fragment of a union.
    pub fn write_union_fragment(&self, owner: &String, members: &Vec<String>) -> (text: String)
        ensures
            text@ == union_fragment(self@, owner@, members@),
    {
        let mut out = self.write_header(owner);
        let mut i: usize = 0;
        while i < members.len()
            invariant
                i <= members@.len(),
                out@ == header(self@, owner@) + member_blocks(self@, members@.take(i as int)),
            decreases members@.len() - i,
        {
            let member = &members[i];
            let fragment = self.fragment_name(member);
            out.append("  ... on ");
            out.append(member.as_str());
            out.append(" {\n");
            out.append("    ...");
            out.append(fragment.as_str());
            out.append("\n");
            out.append("  }\n");
            proof {
                assert(members@.take(i + 1).drop_last() =~= members@.take(i as int));
                assert(out@ =~= header(self@, owner@) + member_blocks(
                    self@,
                    members@.take(i + 1),
                ));
            }
            i += 1;
        }
        proof {
            assert(members@.take(members@.len() as int) =~= members@);
        }
        out.append("}\n");
        out
    }

    /// Renders the fragment of an input object, whose fields must be leaves.
    pub fn write_input_fragment(
        &self,
        registry: &TypeRegistry,
        owner: &String,
        fields: &Vec<InputValueDefinition>,
    ) -> (done: Result<(String, Vec<String>), FragmentGeneratorError>)
        ensures
            match done {
                Ok((text, kept)) => input_fragment(registry.types@, self@, owner@, fields@)
                    == Ok::<Seq<char>, Failure>(text@) && names(kept@)
                    == value_names(fields@),
                Err(e) => input_fragment(registry.types@, self@, owner@, fields@) == Err::<
                    Seq<char>,
                    Failure,
                >(e@),
            },
    {
        let ghost render = input_field_renderer(registry.types@);
        let mut lines: Vec<String> = Vec::new();
        let mut kept: Vec<String> = Vec::new();
        let mut i: usize = 0;
        proof {
            assert(names(lines@) =~= Seq::empty());
            assert(names(kept@) =~= value_names(fields@.take(0)));
        }
        while i < fields.len()
            invariant
                i <= fields@.len(),
                render == input_field_renderer(registry.types@),
                collect(fields@.take(i as int), render) == Ok::<
                    Seq<Seq<char>>,
                    Failure,
                >(names(lines@)),
                names(kept@) == value_names(fields@.take(i as int)),
            decreases fields@.len() - i,
        {
            proof {
                lemma_collect_step(fields@, render, i as int);
            }
            let field = &fields[i];
            match registry.classify(&field.ty) {
                Err(e) => {
                    proof {
                        lemma_collect_fails(fields@, render, i + 1);
                    }
                    return Err(e);
                },
                Ok(Scalarity::Compound(_)) => {
                    proof {
                        lemma_collect_fails(fields@, render, i + 1);
                    }
                    return Err(FragmentGeneratorError::UnsupportedFieldType(field.name.clone()));
                },
                Ok(Scalarity::Leaf) => {
                    let mut line = String::from_str("  ");
                    line.append(field.name.as_str());
                    line.append("\n");
                    let name = field.name.clone();
                    proof {
                        assert(line@ =~= leaf_line(field.name@, Seq::empty()));
                        lemma_names_push(lines@, line);
                        lemma_names_push(kept@, name);
                        assert(value_names(fields@.take(i + 1)) =~= value_names(
                            fields@.take(i as int),
                        ).push(name@));
                    }
                    lines.push(line);
                    kept.push(name);
                },
            }
            i += 1;
        }
        proof {
            assert(fields@.take(fields@.len() as int) =~= fields@);
        }
        let body = concat_strings(&lines);
        let mut out = self.write_header(owner);
        out.append(body.as_str());
        out.append("}\n");
        Ok((out, kept))
    }

    /// Renders the fragment of an object or interface and tells which field
    /// names the type declares by itself: every implemented interface must be
    /// in `resolved`, and what it recorded there is left out here.
    pub fn write_fragment(
        &self,
        registry: &TypeRegistry,
        resolved: &ResolvedFieldSet,
        owner: &String,
        implements: &Vec<String>,
        fields: &Vec<FieldDefinition>,
        add_typename: bool,
    ) -> (done: Result<(String, Vec<String>), FragmentGeneratorError>)
        ensures
            match done {
                Ok((text, kept)) => selection_fragment(
                    registry.types@,
                    self@,
                    resolved@,
                    owner@,
                    implements@,
                    fields@,
                    add_typename,
                ) == Ok::<Seq<char>, Failure>(text@) && names(kept@) == kept_names(
                    fields@,
                    inherited_names(resolved@, implements@),
                ),
                Err(e) => selection_fragment(
                    registry.types@,
                    self@,
                    resolved@,
                    owner@,
                    implements@,
                    fields@,
                    add_typename,
                ) == Err::<Seq<char>, Failure>(e@),
            },
    {
        let ghost spread = spread_renderer(resolved@, self@);
        let mut spreads: Vec<String> = Vec::new();
        let mut inherited: Vec<String> = Vec::new();
        let mut i: usize = 0;
        proof {
            assert(names(spreads@) =~= Seq::empty());
            assert(names(inherited@) =~= Seq::empty());
        }
        while i < implements.len()
            invariant
                i <= implements@.len(),
                spread == spread_renderer(resolved@, self@),
                collect(implements@.take(i as int), spread) == Ok::<
                    Seq<Seq<char>>,
                    Failure,
                >(names(spreads@)),
                names(inherited@) == inherited_names(resolved@, implements@.take(i as int)),
            decreases implements@.len() - i,
        {
            proof {
                lemma_collect_step(implements@, spread, i as int);
                assert(implements@.take(i + 1).drop_last() =~= implements@.take(i as int));
            }
            let interface = &implements[i];
            match resolved.lookup(interface) {
                None => {
                    proof {
                        lemma_collect_fails(implements@, spread, i + 1);
                    }
                    return Err(FragmentGeneratorError::UnresolvedType(interface.clone()));
                },
                Some(theirs) => {
                    let fragment = self.fragment_name(interface);
                    let mut line = String::from_str("  ...");
                    line.append(fragment.as_str());
                    line.append("\n");
                    proof {
                        lemma_names_push(spreads@, line);
                    }
                    spreads.push(line);
                    let ghost before = names(inherited@);
                    let mut j: usize = 0;
                    while j < theirs.len()
                        invariant
                            j <= theirs@.len(),
                            names(inherited@) == before + names(theirs@).take(j as int),
                        decreases theirs@.len() - j,
                    {
                        proof {
                            lemma_names_push(inherited@, theirs@[j as int]);
                            assert(before + names(theirs@).take(j + 1) =~= (before + names(
                                theirs@,
                            ).take(j as int)).push(theirs@[j as int]@));
                        }
                        inherited.push(theirs[j].clone());
                        j += 1;
                    }
                    proof {
                        assert(names(theirs@).take(theirs@.len() as int) =~= names(theirs@));
                    }
                },
            }
            i += 1;
        }
        proof {
            assert(implements@.take(implements@.len() as int) =~= implements@);
        }
        let ghost render = field_renderer(registry.types@, self@, names(inherited@));
        let mut lines: Vec<String> = Vec::new();
        let mut kept: Vec<String> = Vec::new();
        let mut k: usize = 0;
        proof {
            assert(names(lines@) =~= Seq::empty());
            assert(names(kept@) =~= Seq::empty());
        }
        while k < fields.len()
            invariant
                k <= fields@.len(),
                render == field_renderer(registry.types@, self@, names(inherited@)),
                names(inherited@) == inherited_names(resolved@, implements@),
                collect(implements@, spread_renderer(resolved@, self@)) == Ok::<
                    Seq<Seq<char>>,
                    Failure,
                >(names(spreads@)),
                collect(fields@.take(k as int), render) == Ok::<
                    Seq<Seq<char>>,
                    Failure,
                >(names(lines@)),
                names(kept@) == kept_names(fields@.take(k as int), names(inherited@)),
            decreases fields@.len() - k,
        {
            proof {
                lemma_collect_step(fields@, render, k as int);
                lemma_kept_step(fields@, names(inherited@), k as int);
            }
            let field = &fields[k];
            if contains_name(&inherited, &field.name) {
                let line = String::new();
                proof {
                    lemma_names_push(lines@, line);
                }
                lines.push(line);
            } else {
                match self.write_field(registry, field) {
                    Err(e) => {
                        proof {
                            lemma_collect_fails(fields@, render, k + 1);
                        }
                        return Err(e);
                    },
                    Ok(line) => {
                        let name = field.name.clone();
                        proof {
                            lemma_names_push(lines@, line);
                            lemma_names_push(kept@, name);
                        }
                        lines.push(line);
                        kept.push(name);
                    },
                }
            }
            k += 1;
        }
        proof {
            assert(fields@.take(fields@.len() as int) =~= fields@);
        }
        let spread_text = concat_strings(&spreads);
        let body = concat_strings(&lines);
        let mut out = self.write_header(owner);
        if add_typename {
            out.append("  __typename\n");
        }
        proof {
            assert(out@ =~= header(self@, owner@) + typename_line(add_typename));
        }
        out.append(spread_text.as_str());
        out.append(body.as_str());
        out.append("}\n");
        Ok((out, kept))
    }
}

} // verus!
