//! Which of a provider's models are enabled: a list of `(model name, enabled)`
//! entries, read and updated by name.
use vstd::prelude::*;

use crate::text::{owned, str_eq};

verus! {

/// The entries' names by view, with their flags.
pub open spec fn entries(ms: Seq<(String, bool)>) -> Seq<(Seq<char>, bool)> {
    ms.map_values(|e: (String, bool)| (e.0@, e.1))
}

/// Index of the first entry named `name`.
pub open spec fn first_with_name(es: Seq<(Seq<char>, bool)>, name: Seq<char>) -> Option<nat>
    decreases es.len(),
{
    if es.len() == 0 {
        None
    } else if es[0].0 == name {
        Some(0)
    } else {
        match first_with_name(es.drop_first(), name) {
            Some(i) => Some(i + 1),
            None => None,
        }
    }
}

/// The flag of the first entry named `name`, if there is one.
pub open spec fn flag_of(es: Seq<(Seq<char>, bool)>, name: Seq<char>) -> Option<bool> {
    match first_with_name(es, name) {
        Some(i) => Some(es[i as int].1),
        None => None,
    }
}

/// The flag of the last entry named `name`, if there is one; this is what a
/// map built from the entries in order holds for the name.
pub open spec fn last_flag(es: Seq<(Seq<char>, bool)>, name: Seq<char>) -> Option<bool>
    decreases es.len(),
{
    if es.len() == 0 {
        None
    } else if es.last().0 == name {
        Some(es.last().1)
    } else {
        last_flag(es.drop_last(), name)
    }
}

/// The entries after setting `name`'s flag to `enabled`: the first entry of
/// that name is updated, or a new entry is appended when there is none.
pub open spec fn with_flag(es: Seq<(Seq<char>, bool)>, name: Seq<char>, enabled: bool) -> Seq<
    (Seq<char>, bool),
> {
    match first_with_name(es, name) {
        Some(i) => es.update(i as int, (name, enabled)),
        None => es.push((name, enabled)),
    }
}

/// No two entries share a name.
pub open spec fn unique_names(es: Seq<(Seq<char>, bool)>) -> bool {
    forall|i: int, j: int|
        0 <= i < es.len() && 0 <= j < es.len() && i != j ==> #[trigger] es[i].0 != #[trigger] es[j].0
}

/// The first-index function, characterised.
pub proof fn lemma_first_with_name(es: Seq<(Seq<char>, bool)>, name: Seq<char>)
    ensures
        match first_with_name(es, name) {
            Some(i) => i < es.len() && es[i as int].0 == name && forall|j: int|
                0 <= j < i ==> es[j].0 != name,
            None => forall|j: int| 0 <= j < es.len() ==> es[j].0 != name,
        },
    decreases es.len(),
{
    if es.len() > 0 && es[0].0 != name {
        lemma_first_with_name(es.drop_first(), name);
        match first_with_name(es.drop_first(), name) {
            Some(i) => {
                assert forall|j: int| 0 <= j < i + 1 implies es[j].0 != name by {
                    if j > 0 {
                        assert(es[j] == es.drop_first()[j - 1]);
                    }
                }
            },
            None => {
                assert forall|j: int| 0 <= j < es.len() implies es[j].0 != name by {
                    if j > 0 {
                        assert(es[j] == es.drop_first()[j - 1]);
                    }
                }
            },
        }
    }
}

/// Index of the first entry named `name`.
pub fn find_model_entry(ms: &Vec<(String, bool)>, name: &str) -> (r: Option<usize>)
    ensures
        r == (match first_with_name(entries(ms@), name@) {
            Some(i) => Some(i as usize),
            None => None::<usize>,
        }),
{
    proof {
        lemma_first_with_name(entries(ms@), name@);
    }
    let ghost es = entries(ms@);
    for i in 0..ms.len()
        invariant
            es == entries(ms@),
            es.len() == ms.len(),
            forall|j: int| 0 <= j < i ==> es[j].0 != name@,
    {
        if str_eq(ms[i].0.as_str(), name) {
            proof {
                lemma_first_with_name(es, name@);
                match first_with_name(es, name@) {
                    Some(k) => {
                        if (k as int) < (i as int) {
                            assert(es[k as int].0 == name@);
                        }
                        if (k as int) > (i as int) {
                            assert(es[i as int].0 == name@);
                        }
                    },
                    None => {
                        assert(es[i as int].0 == name@);
                    },
                }
            }
            return Some(i);
        }
    }
    proof {
        lemma_first_with_name(es, name@);
        if let Some(k) = first_with_name(es, name@) {
            assert(es[k as int].0 == name@);
        }
    }
    None
}

/// Sets the flag of the model named `name` to `enabled`, adding an entry for
/// it when it has none.
pub fn set_model_enabled(ms: &mut Vec<(String, bool)>, name: &str, enabled: bool)
    ensures
        entries(final(ms)@) == with_flag(entries(old(ms)@), name@, enabled),
{
    let ghost before = entries(ms@);
    proof {
        lemma_first_with_name(before, name@);
    }
    match find_model_entry(ms, name) {
        Some(i) => {
            ms.set(i, (owned(name), enabled));
            assert(entries(ms@) =~= before.update(i as int, (name@, enabled)));
        },
        None => {
            ms.push((owned(name), enabled));
            assert(entries(ms@) =~= before.push((name@, enabled)));
        },
    }
}

/// The flags that a fold of `with_flag` over `fs` leaves.
pub open spec fn with_flags(es: Seq<(Seq<char>, bool)>, fs: Seq<(Seq<char>, bool)>) -> Seq<
    (Seq<char>, bool),
>
    decreases fs.len(),
{
    if fs.len() == 0 {
        es
    } else {
        with_flag(with_flags(es, fs.drop_last()), fs.last().0, fs.last().1)
    }
}

/// Sets the flag of every model in `fs` to its flag there, in order.
pub fn set_models_enabled(ms: &mut Vec<(String, bool)>, fs: &Vec<(String, bool)>)
    ensures
        entries(final(ms)@) == with_flags(entries(old(ms)@), entries(fs@)),
{
    let ghost start = entries(ms@);
    let ghost fe = entries(fs@);
    assert(fe.take(0) =~= Seq::<(Seq<char>, bool)>::empty());
    for i in 0..fs.len()
        invariant
            fe == entries(fs@),
            fe.len() == fs.len(),
            entries(ms@) == with_flags(start, fe.take(i as int)),
    {
        set_model_enabled(ms, fs[i].0.as_str(), fs[i].1);
        assert(fe.take(i + 1).drop_last() =~= fe.take(i as int));
    }
    assert(fe.take(fs.len() as int) =~= fe);
}

/// Sets every listed model's flag to `enabled`.
pub fn set_all_enabled(fs: &mut Vec<(String, bool)>, enabled: bool)
    ensures
        final(fs)@.len() == old(fs)@.len(),
        forall|i: int|
            0 <= i < old(fs)@.len() ==> #[trigger] final(fs)@[i] == (old(fs)@[i].0, enabled),
{
    let ghost before = fs@;
    let mut i: usize = 0;
    while i < fs.len()
        invariant
            i <= fs@.len(),
            fs@.len() == before.len(),
            forall|j: int| 0 <= j < i ==> #[trigger] fs@[j] == (before[j].0, enabled),
            forall|j: int| i <= j < fs@.len() ==> #[trigger] fs@[j] == before[j],
        decreases fs@.len() - i,
    {
        let name = fs[i].0.clone();
        fs.set(i, (name, enabled));
        i = i + 1;
    }
}

/// The models found by a connection test, each enabled as the stored entries
/// say (the last entry of that name), and enabled when none is stored.
pub open spec fn merged_flag(stored: Seq<(Seq<char>, bool)>, name: Seq<char>) -> bool {
    match last_flag(stored, name) {
        Some(b) => b,
        None => true,
    }
}

/// The flag of the last entry named `name`.
fn last_flag_of(ms: &Vec<(String, bool)>, name: &str) -> (r: Option<bool>)
    ensures
        r == last_flag(entries(ms@), name@),
{
    let ghost es = entries(ms@);
    let mut i = ms.len();
    assert(es.take(es.len() as int) =~= es);
    while i > 0
        invariant
            es == entries(ms@),
            es.len() == ms.len(),
            i <= ms.len(),
            last_flag(es, name@) == last_flag(es.take(i as int), name@),
        decreases i,
    {
        assert(es.take(i as int).last() == es[i - 1]);
        if str_eq(ms[i - 1].0.as_str(), name) {
            return Some(ms[i - 1].1);
        }
        assert(es.take(i as int).drop_last() =~= es.take(i - 1));
        i = i - 1;
    }
    None
}

/// Pairs each fetched model name with its enabled flag (`merged_flag`).
pub fn merge_fetched_models(names: &Vec<String>, stored: &Vec<(String, bool)>) -> (r: Vec<
    (String, bool),
>)
    ensures
        r@.len() == names@.len(),
        forall|i: int|
            #![trigger r@[i]]
            0 <= i < names@.len() ==> r@[i].0@ == names@[i]@ && r@[i].1 == merged_flag(
                entries(stored@),
                names@[i]@,
            ),
{
    let mut r: Vec<(String, bool)> = Vec::new();
    for i in 0..names.len()
        invariant
            r@.len() == i,
            forall|j: int|
                #![trigger r@[j]]
                0 <= j < i ==> r@[j].0@ == names@[j]@ && r@[j].1 == merged_flag(
                    entries(stored@),
                    names@[j]@,
                ),
    {
        let enabled = match last_flag_of(stored, names[i].as_str()) {
            Some(b) => b,
            None => true,
        };
        let ghost before = r@;
        r.push((names[i].clone(), enabled));
        assert forall|j: int| #![trigger r@[j]] 0 <= j < i + 1 implies r@[j].0@ == names@[j]@ && r@[j].1
            == merged_flag(entries(stored@), names@[j]@) by {
            if j < i {
                assert(r@[j] == before[j]);
            }
        }
    }
    r
}

// ───────────────────────────── laws ─────────────────────────────
/// A flag reads back as it was set.
pub proof fn lemma_flag_read_after_write(es: Seq<(Seq<char>, bool)>, name: Seq<char>, b: bool)
    ensures
        flag_of(with_flag(es, name, b), name) == Some(b),
{
    lemma_first_with_name(es, name);
    let after = with_flag(es, name, b);
    lemma_first_with_name(after, name);
    match first_with_name(es, name) {
        Some(i) => {
            match first_with_name(after, name) {
                Some(k) => {
                    if k < i {
                        assert(after[k as int] == es[k as int]);
                    }
                    if k > i {
                        assert(after[i as int].0 == name);
                    }
                },
                None => {
                    assert(after[i as int].0 == name);
                },
            }
        },
        None => {
            match first_with_name(after, name) {
                Some(k) => {
                    if k < es.len() {
                        assert(after[k as int] == es[k as int]);
                    }
                },
                None => {
                    assert(after[es.len() as int].0 == name);
                },
            }
        },
    }
}

/// Setting one model's flag leaves every other model's flag as it was.
pub proof fn lemma_flag_frame(es: Seq<(Seq<char>, bool)>, name: Seq<char>, b: bool, other: Seq<char>)
    requires
        other != name,
    ensures
        flag_of(with_flag(es, name, b), other) == flag_of(es, other),
{
    let after = with_flag(es, name, b);
    lemma_first_with_name(es, other);
    lemma_first_with_name(after, other);
    lemma_first_with_name(es, name);
    assert(after.len() >= es.len());
    assert forall|j: int| 0 <= j < es.len() implies (#[trigger] after[j]).0 == other <==> es[j].0
        == other by {
        if let Some(i) = first_with_name(es, name) {
            if j == i {
                assert(after[j].0 == name);
            } else {
                assert(after[j] == es[j]);
            }
        } else {
            assert(after[j] == es[j]);
        }
    }
    match first_with_name(es, other) {
        Some(i) => {
            match first_with_name(after, other) {
                Some(k) => {
                    if k < i {
                        assert(after[k as int].0 == other);
                    }
                    if k > i {
                        assert(after[i as int].0 == other);
                    }
                    if let Some(p) = first_with_name(es, name) {
                        assert(p != i);
                    }
                },
                None => {
                    assert(after[i as int].0 == other);
                },
            }
        },
        None => {
            match first_with_name(after, other) {
                Some(k) => {
                    if k < es.len() {
                        assert(after[k as int].0 == other);
                    } else {
                        assert(after[k as int].0 == name);
                    }
                },
                None => {},
            }
        },
    }
}

/// Setting flags never makes two entries share a name.
pub proof fn lemma_flag_keeps_unique(es: Seq<(Seq<char>, bool)>, name: Seq<char>, b: bool)
    requires
        unique_names(es),
    ensures
        unique_names(with_flag(es, name, b)),
{
    lemma_first_with_name(es, name);
    let after = with_flag(es, name, b);
    assert forall|i: int, j: int|
        0 <= i < after.len() && 0 <= j < after.len() && i != j implies #[trigger] after[i].0
        != #[trigger] after[j].0 by {
        match first_with_name(es, name) {
            Some(p) => {
                if i == p {
                    assert(after[j] == es[j]);
                    assert(es[i].0 == name);
                } else if j == p {
                    assert(after[i] == es[i]);
                    assert(es[j].0 == name);
                } else {
                    assert(after[i] == es[i]);
                    assert(after[j] == es[j]);
                }
            },
            None => {
                if i == es.len() {
                    assert(after[j] == es[j]);
                } else if j == es.len() {
                    assert(after[i] == es[i]);
                } else {
                    assert(after[i] == es[i]);
                    assert(after[j] == es[j]);
                }
            },
        }
    }
}

/// Where names are unique, the first and the last entry of a name agree, so
/// the flag a connection test merges is the flag that was set.
pub proof fn lemma_last_flag_unique(es: Seq<(Seq<char>, bool)>, name: Seq<char>)
    requires
        unique_names(es),
    ensures
        last_flag(es, name) == flag_of(es, name),
    decreases es.len(),
{
    lemma_first_with_name(es, name);
    if es.len() > 0 {
        let d = es.drop_last();
        assert(unique_names(d)) by {
            assert forall|i: int, j: int|
                0 <= i < d.len() && 0 <= j < d.len() && i != j implies #[trigger] d[i].0
                != #[trigger] d[j].0 by {
                assert(d[i] == es[i]);
                assert(d[j] == es[j]);
            }
        }
        lemma_last_flag_unique(d, name);
        lemma_first_with_name(d, name);
        if es.last().0 == name {
            match first_with_name(es, name) {
                Some(k) => {
                    if k < es.len() - 1 {
                        assert(es[k as int].0 == es[es.len() - 1].0);
                    }
                },
                None => {
                    assert(es[es.len() - 1].0 == name);
                },
            }
        } else {
            match first_with_name(es, name) {
                Some(k) => {
                    assert(k < es.len() - 1);
                    assert(d[k as int] == es[k as int]);
                    match first_with_name(d, name) {
                        Some(m) => {
                            assert(d[m as int] == es[m as int]);
                            if m < k {
                                assert(es[m as int].0 == name);
                            }
                            if m > k {
                                assert(d[k as int].0 == name);
                            }
                        },
                        None => {
                            assert(d[k as int].0 == name);
                        },
                    }
                },
                None => {
                    if let Some(m) = first_with_name(d, name) {
                        assert(d[m as int] == es[m as int]);
                    }
                },
            }
        }
    }
}

} // verus!
