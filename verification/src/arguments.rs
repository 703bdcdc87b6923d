use crate::error::{Failure, FragmentGeneratorError};
use crate::schema::{
    declares, index_of, kind_of, InputValueDefinition, Scalarity, TypeDefinition, TypeKind,
    TypeRegistry,
};
use crate::text::{
    agrees, collect, join, join_strings, lemma_collect_fails, lemma_collect_step,
    lemma_names_push, names,
};
use vstd::prelude::*;

verus! {

/// A value bound to the variable of its own name.
pub open spec fn binding(name: Seq<char>) -> Seq<char> {
    name + ": $"@ + name
}

/// The binding of one field of an input object: the field has to be a leaf.
pub open spec fn nested_binding(types: Seq<TypeDefinition>, field: InputValueDefinition) -> Result<
    Seq<char>,
    Failure,
> {
    let target = field.ty.underlying();
    if !declares(types, target) {
        Err(Failure::UnresolvedType(target))
    } else if kind_of(types, target).is_leaf() {
        Ok(binding(field.name@))
    } else {
        Err(Failure::UnsupportedFieldType(field.name@))
    }
}

/// [`nested_binding`] as a renderer of fields.
pub open spec fn nested_renderer(types: Seq<TypeDefinition>) -> spec_fn(
    InputValueDefinition,
) -> Result<Seq<char>, Failure> {
    |field: InputValueDefinition| nested_binding(types, field)
}

/// The fields that an input object declares; no other kind has any.
pub open spec fn input_fields(def: TypeDefinition) -> Seq<InputValueDefinition> {
    match def {
        TypeDefinition::InputObject { fields, .. } => fields@,
        _ => Seq::empty(),
    }
}

/// An argument of input-object type, opened up by one level.
pub open spec fn input_block(name: Seq<char>, indent: Seq<char>, bindings: Seq<Seq<char>>) -> Seq<
    char,
> {
    name + ": {\n"@ + indent + "    "@ + join(bindings, "\n"@ + indent + "    "@) + "\n"@ + indent
        + "  }"@
}

/// The text of an argument of input-object type whose fields are `fields`.
pub open spec fn input_arg_text(
    types: Seq<TypeDefinition>,
    indent: Seq<char>,
    name: Seq<char>,
    fields: Seq<InputValueDefinition>,
) -> Result<Seq<char>, Failure> {
    match collect(fields, nested_renderer(types)) {
        Ok(bindings) => Ok(input_block(name, indent, bindings)),
        Err(e) => Err(e),
    }
}

/// The text of one argument.
pub open spec fn argument_text(
    types: Seq<TypeDefinition>,
    indent: Seq<char>,
    arg: InputValueDefinition,
) -> Result<Seq<char>, Failure> {
    let target = arg.ty.underlying();
    if !declares(types, target) {
        Err(Failure::UnresolvedType(target))
    } else {
        match kind_of(types, target) {
            TypeKind::Scalar | TypeKind::Enum => Ok(binding(arg.name@)),
            TypeKind::InputObject => input_arg_text(
                types,
                indent,
                arg.name@,
                input_fields(types[index_of(types, target)]),
            ),
            _ => Err(Failure::UnsupportedFieldType(arg.name@)),
        }
    }
}

/// [`argument_text`] as a renderer of arguments behind `indent`.
pub open spec fn argument_renderer(types: Seq<TypeDefinition>, indent: Seq<char>) -> spec_fn(
    InputValueDefinition,
) -> Result<Seq<char>, Failure> {
    |arg: InputValueDefinition| argument_text(types, indent, arg)
}

/// A parenthesized block with one argument to a line.
pub open spec fn arglist_block(indent: Seq<char>, bindings: Seq<Seq<char>>) -> Seq<char> {
    " (\n"@ + indent + "  "@ + join(bindings, "\n"@ + indent + "  "@) + "\n"@ + indent + ")"@
}

/// The text that follows a field's name: nothing where it takes no argument,
/// else its arguments in the order of their declaration.
pub open spec fn arglist_text(
    types: Seq<TypeDefinition>,
    indent: Seq<char>,
    args: Seq<InputValueDefinition>,
) -> Result<Seq<char>, Failure> {
    if args.len() == 0 {
        Ok(Seq::empty())
    } else {
        match collect(args, argument_renderer(types, indent)) {
            Ok(bindings) => Ok(arglist_block(indent, bindings)),
            Err(e) => Err(e),
        }
    }
}

/// Binds `name` to the variable of the same name.
pub fn format_binding(name: &String) -> (text: String)
    ensures
        text@ == binding(name@),
{
    let mut out = name.clone();
    out.append(": $");
    out.append(name.as_str());
    out
}

/// Renders an argument of input-object type as a nested block of the
/// object's own fields, none of which may be compound.
pub fn format_input_arg(
    registry: &TypeRegistry,
    name: &String,
    fields: &Vec<InputValueDefinition>,
    indent: &str,
) -> (text: Result<String, FragmentGeneratorError>)
    ensures
        agrees(text, input_arg_text(registry.types@, indent@, name@, fields@)),
{
    let ghost render = nested_renderer(registry.types@);
    let mut parts: Vec<String> = Vec::new();
    let mut i: usize = 0;
    proof {
        assert(names(parts@) =~= Seq::empty());
    }
    while i < fields.len()
        invariant
            i <= fields@.len(),
            render == nested_renderer(registry.types@),
            collect(fields@.take(i as int), render) == Ok::<
                Seq<Seq<char>>,
                Failure,
            >(names(parts@)),
        decreases fields@.len() - i,
    {
        proof {
            lemma_collect_step(fields@, render, i as int);
        }
        let field = &fields[i];
        match registry.classify(&field.ty) {
            Err(e) => {
                proof {
                    lemma_collect_fails(fields@, render, i + 1);
                }
                return Err(e);
            },
            Ok(Scalarity::Compound(_)) => {
                proof {
                    lemma_collect_fails(fields@, render, i + 1);
                }
                return Err(FragmentGeneratorError::UnsupportedFieldType(field.name.clone()));
            },
            Ok(Scalarity::Leaf) => {
                let part = format_binding(&field.name);
                proof {
                    lemma_names_push(parts@, part);
                }
                parts.push(part);
            },
        }
        i += 1;
    }
    proof {
        assert(fields@.take(fields@.len() as int) =~= fields@);
    }
    let mut sep = String::from_str("\n");
    sep.append(indent);
    sep.append("    ");
    let body = join_strings(&parts, sep.as_str());
    let mut out = name.clone();
    out.append(": {\n");
    out.append(indent);
    out.append("    ");
    out.append(body.as_str());
    out.append("\n");
    out.append(indent);
    out.append("  }");
    Ok(out)
}

/// Renders one argument: a leaf as a binding, an input object as a nested
/// block; any other kind has no place in an argument list.
pub fn format_arg(registry: &TypeRegistry, arg: &InputValueDefinition, indent: &str) -> (text:
    Result<String, FragmentGeneratorError>)
    ensures
        agrees(text, argument_text(registry.types@, indent@, *arg)),
{
    match registry.classify(&arg.ty) {
        Err(e) => Err(e),
        Ok(Scalarity::Leaf) => Ok(format_binding(&arg.name)),
        Ok(Scalarity::Compound(def)) => match def {
            TypeDefinition::InputObject { name: _, fields } => format_input_arg(
                registry,
                &arg.name,
                fields,
                indent,
            ),
            _ => Err(FragmentGeneratorError::UnsupportedFieldType(arg.name.clone())),
        },
    }
}

/// Renders the arguments of a field, each on a line of its own behind
/// `indent`, or nothing at all where there are none.
pub fn format_arglist(registry: &TypeRegistry, args: &Vec<InputValueDefinition>, indent: &str) -> (text:
    Result<String, FragmentGeneratorError>)
    ensures
        agrees(text, arglist_text(registry.types@, indent@, args@)),
{
    if args.len() == 0 {
        return Ok(String::new());
    }
    let ghost render = argument_renderer(registry.types@, indent@);
    let mut parts: Vec<String> = Vec::new();
    let mut i: usize = 0;
    proof {
        assert(names(parts@) =~= Seq::empty());
    }
    while i < args.len()
        invariant
            i <= args@.len(),
            render == argument_renderer(registry.types@, indent@),
            collect(args@.take(i as int), render) == Ok::<Seq<Seq<char>>, Failure>(
                names(parts@),
            ),
        decreases args@.len() - i,
    {
        proof {
            lemma_collect_step(args@, render, i as int);
        }
        match format_arg(registry, &args[i], indent) {
            Err(e) => {
                proof {
                    lemma_collect_fails(args@, render, i + 1);
                }
                return Err(e);
            },
            Ok(part) => {
                proof {
                    lemma_names_push(parts@, part);
                }
                parts.push(part);
            },
        }
        i += 1;
    }
    proof {
        assert(args@.take(args@.len() as int) =~= args@);
    }
    let mut sep = String::from_str("\n");
    sep.append(indent);
    sep.append("  ");
    let body = join_strings(&parts, sep.as_str());
    let mut out = String::from_str(" (\n");
    out.append(indent);
    out.append("  ");
    out.append(body.as_str());
    out.append("\n");
    out.append(indent);
    out.append(")");
    Ok(out)
}

} // verus!
