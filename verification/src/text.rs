use crate::error::{Failure, FragmentGeneratorError};
use vstd::prelude::*;

verus! {

/// The texts that a sequence of strings holds.
pub open spec fn names(v: Seq<String>) -> Seq<Seq<char>> {
    Seq::new(v.len(), |i: int| v[i]@)
}

/// The parts in order, with `sep` between each two neighbours.
pub open spec fn join(parts: Seq<Seq<char>>, sep: Seq<char>) -> Seq<char>
    decreases parts.len(),
{
    if parts.len() == 0 {
        Seq::empty()
    } else if parts.len() == 1 {
        parts[0]
    } else {
        join(parts.drop_last(), sep) + sep + parts.last()
    }
}

/// The parts in order, with nothing between them.
pub open spec fn concat(parts: Seq<Seq<char>>) -> Seq<char>
    decreases parts.len(),
{
    if parts.len() == 0 {
        Seq::empty()
    } else {
        concat(parts.drop_last()) + parts.last()
    }
}

/// Renders every item with `f`, in order; the first failure is the result.
pub open spec fn collect<T>(
    items: Seq<T>,
    f: spec_fn(T) -> Result<Seq<char>, Failure>,
) -> Result<Seq<Seq<char>>, Failure>
    decreases items.len(),
{
    if items.len() == 0 {
        Ok(Seq::empty())
    } else {
        match collect(items.drop_last(), f) {
            Err(e) => Err(e),
            Ok(done) => match f(items.last()) {
                Ok(t) => Ok(done.push(t)),
                Err(e) => Err(e),
            },
        }
    }
}

/// Collecting one item more renders that item after the ones before it.
pub proof fn lemma_collect_step<T>(
    items: Seq<T>,
    f: spec_fn(T) -> Result<Seq<char>, Failure>,
    i: int,
)
    requires
        0 <= i < items.len(),
    ensures
        collect(items.take(i + 1), f) == match collect(items.take(i), f) {
            Err(e) => Err(e),
            Ok(done) => match f(items[i]) {
                Ok(t) => Ok(done.push(t)),
                Err(e) => Err(e),
            },
        },
{
    assert(items.take(i + 1).drop_last() =~= items.take(i));
    assert(items.take(i + 1).last() == items[i]);
}

/// A failure among the first items is the failure of the whole.
pub proof fn lemma_collect_fails<T>(
    items: Seq<T>,
    f: spec_fn(T) -> Result<Seq<char>, Failure>,
    k: int,
)
    requires
        0 <= k <= items.len(),
        collect(items.take(k), f) is Err,
    ensures
        collect(items, f) == collect(items.take(k), f),
    decreases items.len(),
{
    if k == items.len() {
        assert(items.take(k) =~= items);
    } else {
        assert(items.drop_last().take(k) =~= items.take(k));
        lemma_collect_fails(items.drop_last(), f, k);
    }
}

/// Whether a result of the library holds the text, or the failure, that was
/// expected of it.
pub open spec fn agrees(
    got: Result<String, FragmentGeneratorError>,
    expected: Result<Seq<char>, Failure>,
) -> bool {
    match got {
        Ok(s) => expected == Ok::<Seq<char>, Failure>(s@),
        Err(e) => expected == Err::<Seq<char>, Failure>(e@),
    }
}

/// Pushing a string pushes its text.
pub proof fn lemma_names_push(v: Seq<String>, s: String)
    ensures
        names(v.push(s)) == names(v).push(s@),
{
    assert(names(v.push(s)) =~= names(v).push(s@));
}

/// Joins the parts with `sep` between each two.
pub fn join_strings(parts: &Vec<String>, sep: &str) -> (joined: String)
    ensures
        joined@ == join(names(parts@), sep@),
{
    let mut out = String::new();
    let mut i: usize = 0;
    while i < parts.len()
        invariant
            i <= parts@.len(),
            out@ == join(names(parts@).take(i as int), sep@),
        decreases parts@.len() - i,
    {
        if i > 0 {
            out.append(sep);
        }
        out.append(parts[i].as_str());
        proof {
            let p = names(parts@);
            assert(p.take(i + 1).drop_last() =~= p.take(i as int));
            assert(p.take(i + 1).last() == parts@[i as int]@);
            if i == 0 {
                assert(out@ =~= parts@[0]@);
            }
        }
        i += 1;
    }
    proof {
        assert(names(parts@).take(parts@.len() as int) =~= names(parts@));
    }
    out
}

/// Joins the parts with nothing between them.
pub fn concat_strings(parts: &Vec<String>) -> (joined: String)
    ensures
        joined@ == concat(names(parts@)),
{
    let mut out = String::new();
    let mut i: usize = 0;
    while i < parts.len()
        invariant
            i <= parts@.len(),
            out@ == concat(names(parts@).take(i as int)),
        decreases parts@.len() - i,
    {
        out.append(parts[i].as_str());
        proof {
            let p = names(parts@);
            assert(p.take(i + 1).drop_last() =~= p.take(i as int));
            assert(p.take(i + 1).last() == parts@[i as int]@);
        }
        i += 1;
    }
    proof {
        assert(names(parts@).take(parts@.len() as int) =~= names(parts@));
    }
    out
}

/// Whether `name` is among `list`.
pub fn contains_name(list: &Vec<String>, name: &String) -> (found: bool)
    ensures
        found == names(list@).contains(name@),
{
    let mut i: usize = 0;
    while i < list.len()
        invariant
            i <= list@.len(),
            forall|j: int| 0 <= j < i ==> (#[trigger] names(list@)[j]) != name@,
        decreases list@.len() - i,
    {
        if list[i] == *name {
            assert(names(list@)[i as int] == name@);
            return true;
        }
        i += 1;
    }
    false
}

} // verus!
