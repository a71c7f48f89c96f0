//! Header fields as a sequence: what setting a field does to the fields held.

use vstd::prelude::*;

use crate::header::{lookup, names_are_distinct, with_field, with_fields, without_name};

verus! {

/// Whether `a` and `b` hold the same names in the same order.
pub open spec fn same_names(a: Seq<(Seq<char>, Seq<u8>)>, b: Seq<(Seq<char>, Seq<u8>)>) -> bool {
    &&& a.len() == b.len()
    &&& forall|i: int| 0 <= i < a.len() ==> (#[trigger] a[i]).0 == b[i].0
}

/// Leaving out a name leaves out fields only, and keeps the others in order.
pub proof fn lemma_without_name(entries: Seq<(Seq<char>, Seq<u8>)>, name: Seq<char>)
    ensures
        without_name(entries, name).len() <= entries.len(),
        forall|i: int|
            0 <= i < without_name(entries, name).len() ==> (#[trigger] without_name(
                entries,
                name,
            )[i]).0 != name,
        (forall|i: int| 0 <= i < entries.len() ==> (#[trigger] entries[i]).0 != name)
            ==> without_name(entries, name) == entries,
    decreases entries.len(),
{
    if entries.len() > 0 {
        let rest = entries.drop_first();
        lemma_without_name(rest, name);
        if forall|i: int| 0 <= i < entries.len() ==> (#[trigger] entries[i]).0 != name {
            assert forall|i: int| 0 <= i < rest.len() implies (#[trigger] rest[i]).0 != name by {
                assert(rest[i] == entries[i + 1]);
            }
            assert(entries[0].0 != name);
            assert(without_name(entries, name) =~= entries);
        }
    }
}

/// A name is looked up in vain exactly when no field has it.
pub proof fn lemma_lookup_none(entries: Seq<(Seq<char>, Seq<u8>)>, name: Seq<char>)
    ensures
        lookup(entries, name) is None <==> forall|i: int|
            0 <= i < entries.len() ==> (#[trigger] entries[i]).0 != name,
    decreases entries.len(),
{
    if entries.len() > 0 {
        let rest = entries.drop_first();
        lemma_lookup_none(rest, name);
        if entries[0].0 != name {
            if lookup(rest, name) is None {
                assert forall|i: int| 0 <= i < entries.len() implies (#[trigger] entries[i]).0
                    != name by {
                    if i > 0 {
                        assert(rest[i - 1] == entries[i]);
                    }
                }
            } else {
                let k = choose|k: int| 0 <= k < rest.len() && (#[trigger] rest[k]).0 == name;
                assert(entries[k + 1] == rest[k]);
            }
        }
    }
}

/// Leaving out one name does not change what is found under another.
pub proof fn lemma_lookup_without_name(
    entries: Seq<(Seq<char>, Seq<u8>)>,
    name: Seq<char>,
    other: Seq<char>,
)
    requires
        other != name,
    ensures
        lookup(without_name(entries, name), other) == lookup(entries, other),
    decreases entries.len(),
{
    if entries.len() > 0 {
        let rest = entries.drop_first();
        lemma_lookup_without_name(rest, name, other);
        if entries[0].0 != name {
            let kept = seq![entries[0]] + without_name(rest, name);
            assert(kept[0] == entries[0]);
            assert(kept.drop_first() =~= without_name(rest, name));
        }
    }
}

/// After a field is set, its value is found under its name, and what is found under
/// any other name is as before.
pub proof fn lemma_lookup_with_field(
    entries: Seq<(Seq<char>, Seq<u8>)>,
    name: Seq<char>,
    value: Seq<u8>,
    other: Seq<char>,
)
    ensures
        lookup(with_field(entries, name, value), other) == if other == name {
            Some(value)
        } else {
            lookup(entries, other)
        },
    decreases entries.len(),
{
    let set = with_field(entries, name, value);
    if entries.len() == 0 {
        assert(set[0] == (name, value));
        assert(set.drop_first() =~= Seq::<(Seq<char>, Seq<u8>)>::empty());
    } else {
        let rest = entries.drop_first();
        if entries[0].0 == name {
            assert(set[0] == (name, value));
            assert(set.drop_first() =~= without_name(rest, name));
            if other != name {
                lemma_lookup_without_name(rest, name, other);
            }
        } else {
            assert(set[0] == entries[0]);
            assert(set.drop_first() =~= with_field(rest, name, value));
            lemma_lookup_with_field(rest, name, value, other);
        }
    }
}

/// Setting a name that is not held yet adds the field at the end.
pub proof fn lemma_with_new_field(
    entries: Seq<(Seq<char>, Seq<u8>)>,
    name: Seq<char>,
    value: Seq<u8>,
)
    requires
        forall|i: int| 0 <= i < entries.len() ==> (#[trigger] entries[i]).0 != name,
    ensures
        with_field(entries, name, value) == entries.push((name, value)),
    decreases entries.len(),
{
    if entries.len() == 0 {
        assert(with_field(entries, name, value) =~= entries.push((name, value)));
    } else {
        let rest = entries.drop_first();
        assert forall|i: int| 0 <= i < rest.len() implies (#[trigger] rest[i]).0 != name by {
            assert(rest[i] == entries[i + 1]);
        }
        lemma_with_new_field(rest, name, value);
        assert(entries[0].0 != name);
        assert(with_field(entries, name, value) =~= entries.push((name, value)));
    }
}

/// Setting fields with names that differ from each other and from those held adds
/// them at the end, in order.
pub proof fn lemma_with_new_fields(
    held: Seq<(Seq<char>, Seq<u8>)>,
    fields: Seq<(Seq<char>, Seq<u8>)>,
)
    requires
        names_are_distinct(held + fields),
    ensures
        with_fields(held, fields) == held + fields,
    decreases fields.len(),
{
    if fields.len() == 0 {
        assert(held + fields =~= held);
    } else {
        let first = fields[0];
        let all = held + fields;
        assert forall|i: int| 0 <= i < held.len() implies (#[trigger] held[i]).0 != first.0 by {
            assert(all[i] == held[i]);
            assert(all[held.len() as int] == first);
        }
        lemma_with_new_field(held, first.0, first.1);
        let grown = held.push(first);
        assert(grown + fields.drop_first() =~= all);
        lemma_with_new_fields(grown, fields.drop_first());
    }
}

/// Setting a name that is held, among fields with distinct names, changes no name and
/// no place.
pub proof fn lemma_with_held_field(
    entries: Seq<(Seq<char>, Seq<u8>)>,
    name: Seq<char>,
    value: Seq<u8>,
)
    requires
        names_are_distinct(entries),
        lookup(entries, name) is Some,
    ensures
        same_names(with_field(entries, name, value), entries),
    decreases entries.len(),
{
    let set = with_field(entries, name, value);
    let rest = entries.drop_first();
    assert(names_are_distinct(rest)) by {
        assert forall|i: int, j: int| 0 <= i < j < rest.len() implies (#[trigger] rest[i]).0 != (
        #[trigger] rest[j]).0 by {
            assert(rest[i] == entries[i + 1] && rest[j] == entries[j + 1]);
        }
    }
    if entries[0].0 == name {
        assert forall|i: int| 0 <= i < rest.len() implies (#[trigger] rest[i]).0 != name by {
            assert(rest[i] == entries[i + 1]);
        }
        lemma_without_name(rest, name);
        assert(set =~= seq![(name, value)] + rest);
        assert forall|i: int| 0 <= i < set.len() implies (#[trigger] set[i]).0 == entries[i].0 by {
            if i > 0 {
                assert(set[i] == rest[i - 1]);
            }
        }
    } else {
        lemma_with_held_field(rest, name, value);
        let inner = with_field(rest, name, value);
        assert(set =~= seq![entries[0]] + inner);
        assert forall|i: int| 0 <= i < set.len() implies (#[trigger] set[i]).0 == entries[i].0 by {
            if i > 0 {
                assert(set[i] == inner[i - 1]);
                assert(inner[i - 1].0 == rest[i - 1].0);
            }
        }
    }
}

/// Fields with the same names in the same order have distinct names together.
pub proof fn lemma_same_names_distinct(
    a: Seq<(Seq<char>, Seq<u8>)>,
    b: Seq<(Seq<char>, Seq<u8>)>,
)
    requires
        same_names(a, b),
        names_are_distinct(b),
    ensures
        names_are_distinct(a),
{
    assert forall|i: int, j: int| 0 <= i < j < a.len() implies (#[trigger] a[i]).0 != (
    #[trigger] a[j]).0 by {
        assert(a[i].0 == b[i].0 && a[j].0 == b[j].0);
    }
}

/// Setting a field keeps names distinct.
pub proof fn lemma_with_field_distinct(
    entries: Seq<(Seq<char>, Seq<u8>)>,
    name: Seq<char>,
    value: Seq<u8>,
)
    requires
        names_are_distinct(entries),
    ensures
        names_are_distinct(with_field(entries, name, value)),
{
    if lookup(entries, name) is Some {
        lemma_with_held_field(entries, name, value);
        lemma_same_names_distinct(with_field(entries, name, value), entries);
    } else {
        lemma_lookup_none(entries, name);
        lemma_with_new_field(entries, name, value);
    }
}

/// Setting a field among fields with distinct names drops no field.
pub proof fn lemma_with_field_keeps_len(
    entries: Seq<(Seq<char>, Seq<u8>)>,
    name: Seq<char>,
    value: Seq<u8>,
)
    requires
        names_are_distinct(entries),
    ensures
        entries.len() <= with_field(entries, name, value).len() <= entries.len() + 1,
{
    if lookup(entries, name) is Some {
        lemma_with_held_field(entries, name, value);
    } else {
        lemma_lookup_none(entries, name);
        lemma_with_new_field(entries, name, value);
    }
}

/// Setting fields keeps names distinct.
pub proof fn lemma_with_fields_distinct(
    entries: Seq<(Seq<char>, Seq<u8>)>,
    fields: Seq<(Seq<char>, Seq<u8>)>,
)
    requires
        names_are_distinct(entries),
    ensures
        names_are_distinct(with_fields(entries, fields)),
    decreases fields.len(),
{
    if fields.len() > 0 {
        lemma_with_field_distinct(entries, fields[0].0, fields[0].1);
        lemma_with_fields_distinct(
            with_field(entries, fields[0].0, fields[0].1),
            fields.drop_first(),
        );
    }
}

/// Setting fields among fields with distinct names drops no field, and adds at most
/// one for each field set.
pub proof fn lemma_with_fields_len(
    entries: Seq<(Seq<char>, Seq<u8>)>,
    fields: Seq<(Seq<char>, Seq<u8>)>,
)
    requires
        names_are_distinct(entries),
    ensures
        entries.len() <= with_fields(entries, fields).len() <= entries.len() + fields.len(),
    decreases fields.len(),
{
    if fields.len() > 0 {
        lemma_with_field_distinct(entries, fields[0].0, fields[0].1);
        lemma_with_field_keeps_len(entries, fields[0].0, fields[0].1);
        lemma_with_fields_len(with_field(entries, fields[0].0, fields[0].1), fields.drop_first());
    }
}

/// After fields are set, what is found under a name is what the fields alone put
/// there, or else what was held before.
pub proof fn lemma_lookup_with_fields(
    entries: Seq<(Seq<char>, Seq<u8>)>,
    fields: Seq<(Seq<char>, Seq<u8>)>,
    name: Seq<char>,
)
    ensures
        lookup(with_fields(entries, fields), name) == match lookup(
            with_fields(Seq::empty(), fields),
            name,
        ) {
            Some(value) => Some(value),
            None => lookup(entries, name),
        },
    decreases fields.len(),
{
    if fields.len() > 0 {
        let first = fields[0];
        let others = fields.drop_first();
        let nothing = Seq::<(Seq<char>, Seq<u8>)>::empty();
        lemma_lookup_with_fields(with_field(entries, first.0, first.1), others, name);
        lemma_lookup_with_fields(with_field(nothing, first.0, first.1), others, name);
        lemma_lookup_with_field(entries, first.0, first.1, name);
        lemma_lookup_with_field(nothing, first.0, first.1, name);
    }
}

/// Setting fields whose names are all held, among fields with distinct names, changes
/// no name and no place.
pub proof fn lemma_with_held_fields(
    entries: Seq<(Seq<char>, Seq<u8>)>,
    fields: Seq<(Seq<char>, Seq<u8>)>,
)
    requires
        names_are_distinct(entries),
        forall|i: int| 0 <= i < fields.len() ==> lookup(entries, (#[trigger] fields[i]).0) is Some,
    ensures
        same_names(with_fields(entries, fields), entries),
    decreases fields.len(),
{
    if fields.len() > 0 {
        let first = fields[0];
        let others = fields.drop_first();
        let set = with_field(entries, first.0, first.1);
        lemma_with_held_field(entries, first.0, first.1);
        lemma_same_names_distinct(set, entries);
        assert forall|i: int| 0 <= i < others.len() implies lookup(set, (#[trigger] others[i]).0)
            is Some by {
            assert(others[i] == fields[i + 1]);
            lemma_lookup_with_field(entries, first.0, first.1, others[i].0);
        }
        lemma_with_held_fields(set, others);
    }
}

/// Among fields with distinct names, each field is found under its name.
pub proof fn lemma_lookup_own(entries: Seq<(Seq<char>, Seq<u8>)>, i: int)
    requires
        names_are_distinct(entries),
        0 <= i < entries.len(),
    ensures
        lookup(entries, entries[i].0) == Some(entries[i].1),
    decreases entries.len(),
{
    if i > 0 {
        let rest = entries.drop_first();
        assert(names_are_distinct(rest)) by {
            assert forall|a: int, b: int| 0 <= a < b < rest.len() implies (#[trigger] rest[a]).0
                != (#[trigger] rest[b]).0 by {
                assert(rest[a] == entries[a + 1] && rest[b] == entries[b + 1]);
            }
        }
        assert(rest[i - 1] == entries[i]);
        lemma_lookup_own(rest, i - 1);
    }
}

/// Setting the same fields a second time changes nothing.
pub proof fn lemma_with_fields_twice(fields: Seq<(Seq<char>, Seq<u8>)>)
    ensures
        with_fields(with_fields(Seq::empty(), fields), fields) == with_fields(
            Seq::empty(),
            fields,
        ),
{
    let nothing = Seq::<(Seq<char>, Seq<u8>)>::empty();
    let once = with_fields(nothing, fields);
    let twice = with_fields(once, fields);
    lemma_with_fields_distinct(nothing, fields);
    assert forall|i: int| 0 <= i < fields.len() implies lookup(once, (#[trigger] fields[i]).0)
        is Some by {
        lemma_field_is_found(nothing, fields, i);
    }
    lemma_with_held_fields(once, fields);
    lemma_same_names_distinct(twice, once);
    assert forall|i: int| 0 <= i < twice.len() implies #[trigger] twice[i] == once[i] by {
        lemma_lookup_own(twice, i);
        lemma_lookup_own(once, i);
        lemma_lookup_with_fields(once, fields, twice[i].0);
    }
    assert(twice =~= once);
}

/// After fields are set, each of their names is held.
pub proof fn lemma_field_is_found(
    entries: Seq<(Seq<char>, Seq<u8>)>,
    fields: Seq<(Seq<char>, Seq<u8>)>,
    i: int,
)
    requires
        0 <= i < fields.len(),
    ensures
        lookup(with_fields(entries, fields), fields[i].0) is Some,
    decreases fields.len(),
{
    let first = fields[0];
    let others = fields.drop_first();
    let set = with_field(entries, first.0, first.1);
    if i == 0 {
        lemma_lookup_with_field(entries, first.0, first.1, first.0);
        lemma_lookup_with_fields(set, others, first.0);
    } else {
        assert(others[i - 1] == fields[i]);
        lemma_field_is_found(set, others, i - 1);
    }
}

/// The value of the last field of `fields` named `name`.
pub open spec fn last_value(fields: Seq<(Seq<char>, Seq<u8>)>, name: Seq<char>) -> Option<
    Seq<u8>,
>
    decreases fields.len(),
{
    if fields.len() == 0 {
        None
    } else if fields.last().0 == name {
        Some(fields.last().1)
    } else {
        last_value(fields.drop_last(), name)
    }
}

/// The last value under a name is the last value among the fields after the first, or
/// else that of the first.
pub proof fn lemma_last_value_front(fields: Seq<(Seq<char>, Seq<u8>)>, name: Seq<char>)
    requires
        fields.len() > 0,
    ensures
        last_value(fields, name) == match last_value(fields.drop_first(), name) {
            Some(value) => Some(value),
            None => if fields[0].0 == name {
                Some(fields[0].1)
            } else {
                None
            },
        },
    decreases fields.len(),
{
    let others = fields.drop_first();
    if fields.len() == 1 {
        assert(fields.last() == fields[0]);
        assert(fields.drop_last().len() == 0);
        assert(last_value(fields.drop_last(), name) is None);
    } else {
        let shorter = fields.drop_last();
        assert(others.last() == fields.last());
        assert(others.drop_last() =~= shorter.drop_first());
        assert(shorter[0] == fields[0]);
        if fields.last().0 != name {
            lemma_last_value_front(shorter, name);
        }
    }
}

/// The last write wins: after fields are set, under each of their names stands the
/// value of the last field of that name, and under any other name what was held.
pub proof fn lemma_last_field_wins(
    held: Seq<(Seq<char>, Seq<u8>)>,
    fields: Seq<(Seq<char>, Seq<u8>)>,
    name: Seq<char>,
)
    ensures
        lookup(with_fields(held, fields), name) == match last_value(fields, name) {
            Some(value) => Some(value),
            None => lookup(held, name),
        },
    decreases fields.len(),
{
    if fields.len() > 0 {
        let first = fields[0];
        lemma_last_field_wins(with_field(held, first.0, first.1), fields.drop_first(), name);
        lemma_lookup_with_field(held, first.0, first.1, name);
        lemma_last_value_front(fields, name);
    }
}

} // verus!
