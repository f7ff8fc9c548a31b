use vstd::prelude::*;
use vstd::std_specs::cmp::PartialEqSpec;

verus! {

/// Options for showing a value as a struct, with all of its fields.
#[derive(Clone, Copy, Debug, Default, PartialEq, Eq, Structural)]
pub struct InspectArgsStruct {
    pub header: Option<bool>,
    pub indent_children: Option<bool>,
}

/// Whether every element equals the first one.
pub open spec fn all_same<T: PartialEq>(data: Seq<&T>) -> bool {
    forall|i: int| 0 <= i < data.len() ==> (#[trigger] data[i]).eq_spec(data[0])
}

/// The common value of a selection shown together: the first element, if there is
/// exactly one, or if all of them equal it; `None` otherwise.
pub fn get_same_or_none<'a, T: PartialEq + Clone>(data: &'a [&'a T]) -> (r: Option<&'a T>)
    ensures
        data@.len() == 0 ==> r is None,
        data@.len() == 1 ==> r == Some(data@[0]),
        T::obeys_eq_spec() && data@.len() > 1 ==> (r is Some <==> all_same(data@)),
        r is Some ==> r->Some_0 == data@[0],
{
    if data.len() == 0 {
        return None;
    }
    if data.len() == 1 {
        return Some(data[0]);
    }
    let first = data[0];
    let mut i: usize = 0;
    while i < data.len()
        invariant
            i <= data@.len(),
            data@.len() > 1,
            first == data@[0],
            T::obeys_eq_spec() ==> forall|j: int| 0 <= j < i ==> (#[trigger] data@[j]).eq_spec(data@[0]),
        decreases data@.len() - i,
    {
        if data[i].ne(first) {
            return None;
        }
        i += 1;
    }
    Some(first)
}

} // verus!
