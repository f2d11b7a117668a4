//! The outputs: which monitors are used and how, and in which order.

use vstd::prelude::*;

use crate::gate::config::MonitorConfig;
use crate::gate::state::OutputState;
use crate::text::eq_str;

verus! {

// ---- The order of the settings ----------------------------------------------

/// The first of the names at or after `i` that is `name`; the length where
/// there is none.
pub open spec fn name_from(names: Seq<Seq<char>>, name: Seq<char>, i: int) -> int
    decreases names.len() - i,
{
    if i >= names.len() {
        names.len() as int
    } else if names[i] == name {
        i
    } else {
        name_from(names, name, i + 1)
    }
}

/// The outputs that the first `n` monitors of the settings name, in that
/// order, each once.
pub open spec fn declared(ms: Seq<MonitorConfig>, names: Seq<Seq<char>>, n: int) -> Seq<usize>
    decreases n,
{
    if n <= 0 {
        Seq::empty()
    } else {
        let before = declared(ms, names, n - 1);
        let o = name_from(names, ms[n - 1].name@, 0);
        if o < names.len() && !before.contains(o as usize) {
            before.push(o as usize)
        } else {
            before
        }
    }
}

/// `first`, then those of the outputs below `n` that are not in it.
pub open spec fn completed(first: Seq<usize>, n: int) -> Seq<usize>
    decreases n,
{
    if n <= 0 {
        first
    } else if first.contains((n - 1) as usize) {
        completed(first, n - 1)
    } else {
        completed(first, n - 1).push((n - 1) as usize)
    }
}

/// The order of the outputs: those that the settings name, as the settings
/// name them, then the others.
pub open spec fn ordered(ms: Seq<MonitorConfig>, names: Seq<Seq<char>>) -> Seq<usize> {
    completed(declared(ms, names, ms.len() as int), names.len() as int)
}

/// The names of the outputs.
pub open spec fn names_of(os: Seq<OutputState>) -> Seq<Seq<char>> {
    os.map_values(|o: OutputState| o.name@)
}

/// The first output with the name.
pub fn find_named(outputs: &Vec<OutputState>, name: &str) -> (out: Option<usize>)
    ensures
        match out {
            Some(o) => o < outputs.len() && o == name_from(names_of(outputs@), name@, 0),
            None => name_from(names_of(outputs@), name@, 0) == outputs@.len(),
        },
{
    let mut o: usize = 0;
    while o < outputs.len()
        invariant
            o <= outputs.len(),
            name_from(names_of(outputs@), name@, 0) == name_from(names_of(outputs@), name@, o as int),
        decreases outputs.len() - o,
    {
        if eq_str(outputs[o].name.as_str(), name) {
            return Some(o);
        }
        o = o + 1;
    }
    None
}

fn contains_index(v: &Vec<usize>, x: usize) -> (r: bool)
    ensures
        r == v@.contains(x),
{
    let mut i: usize = 0;
    while i < v.len()
        invariant
            i <= v.len(),
            forall|k: int| 0 <= k < i ==> #[trigger] v@[k] != x,
        decreases v.len() - i,
    {
        if v[i] == x {
            return true;
        }
        i = i + 1;
    }
    false
}

proof fn lemma_name_from(names: Seq<Seq<char>>, name: Seq<char>, i: int)
    requires
        0 <= i <= names.len(),
    ensures
        i <= name_from(names, name, i) <= names.len(),
        name_from(names, name, i) < names.len() ==> names[name_from(names, name, i)] == name,
        forall|k: int| i <= k < name_from(names, name, i) ==> #[trigger] names[k] != name,
    decreases names.len() - i,
{
    if i < names.len() && names[i] != name {
        lemma_name_from(names, name, i + 1);
    }
}

proof fn lemma_declared(ms: Seq<MonitorConfig>, names: Seq<Seq<char>>, n: int)
    requires
        0 <= n <= ms.len(),
        names.len() <= usize::MAX,
    ensures
        declared(ms, names, n).no_duplicates(),
        forall|i: int|
            0 <= i < declared(ms, names, n).len() ==> #[trigger] declared(ms, names, n)[i]
                < names.len(),
    decreases n,
{
    if n > 0 {
        lemma_declared(ms, names, n - 1);
        lemma_name_from(names, ms[n - 1].name@, 0);
        let before = declared(ms, names, n - 1);
        let o = name_from(names, ms[n - 1].name@, 0) as usize;
        if !before.contains(o) {
            assert(before.push(o).no_duplicates());
        }
    }
}

proof fn lemma_completed(first: Seq<usize>, n: int, m: int)
    requires
        0 <= n <= m <= usize::MAX,
        first.no_duplicates(),
        forall|i: int| 0 <= i < first.len() ==> #[trigger] first[i] < m,
    ensures
        completed(first, n).no_duplicates(),
        forall|i: int| 0 <= i < first.len() ==> completed(first, n).contains(#[trigger] first[i]),
        forall|i: int| 0 <= i < completed(first, n).len() ==> #[trigger] completed(first, n)[i] < m,
        forall|x: usize| x < n ==> #[trigger] completed(first, n).contains(x),
        forall|x: usize| #[trigger]
            completed(first, n).contains(x) ==> x < n || first.contains(x),
        completed(first, n).len() >= first.len(),
    decreases n,
{
    if n > 0 {
        lemma_completed(first, n - 1, m);
        let before = completed(first, n - 1);
        let x = (n - 1) as usize;
        if first.contains(x) {
            let i = choose|i: int| 0 <= i < first.len() && first[i] == x;
            assert(before.contains(first[i]));
        } else {
            assert(!before.contains(x));
            let after = before.push(x);
            assert(after.no_duplicates());
            assert(after[before.len() as int] == x);
            assert forall|y: usize| before.contains(y) implies after.contains(y) by {
                let i = choose|i: int| 0 <= i < before.len() && before[i] == y;
                assert(after[i] == y);
            }
            assert forall|y: usize| #[trigger] after.contains(y) implies y < n || first.contains(
                y,
            ) by {
                let i = choose|i: int| 0 <= i < after.len() && after[i] == y;
                if i < before.len() {
                    assert(before[i] == y);
                    assert(before.contains(y));
                }
            }
        }
    } else {
        assert forall|i: int| 0 <= i < first.len() implies completed(first, n).contains(
            #[trigger] first[i],
        ) by {}
    }
}

/// The order names every output, each once.
pub proof fn law_order_is_complete(ms: Seq<MonitorConfig>, names: Seq<Seq<char>>)
    requires
        names.len() <= usize::MAX,
    ensures
        ordered(ms, names).no_duplicates(),
        forall|o: usize| ordered(ms, names).contains(o) <==> o < names.len(),
        ordered(ms, names).len() == names.len(),
{
    lemma_declared(ms, names, ms.len() as int);
    let first = declared(ms, names, ms.len() as int);
    lemma_completed(first, names.len() as int, names.len() as int);
    let all = ordered(ms, names);
    assert forall|o: usize| all.contains(o) <==> o < names.len() by {}
    all.unique_seq_to_set();
    let range = Seq::new(names.len(), |i: int| i as usize);
    assert(range.no_duplicates());
    range.unique_seq_to_set();
    assert forall|o: usize| range.contains(o) <==> o < names.len() by {
        if o < names.len() {
            assert(range[o as int] == o);
        }
    }
    assert(all.to_set() =~= range.to_set());
}

/// The order of the outputs.
pub fn order_outputs(monitors: &Vec<MonitorConfig>, outputs: &Vec<OutputState>) -> (order: Vec<usize>)
    ensures
        order@ == ordered(monitors@, names_of(outputs@)),
        order@.no_duplicates(),
        order@.len() == outputs@.len(),
        forall|i: int| 0 <= i < order@.len() ==> #[trigger] order@[i] < outputs@.len(),
{
    let ghost names = names_of(outputs@);
    let mut order: Vec<usize> = Vec::new();
    let mut m: usize = 0;
    while m < monitors.len()
        invariant
            m <= monitors.len(),
            names == names_of(outputs@),
            order@ == declared(monitors@, names, m as int),
        decreases monitors.len() - m,
    {
        match find_named(outputs, monitors[m].name.as_str()) {
            Some(o) => {
                if !contains_index(&order, o) {
                    order.push(o);
                }
            },
            None => {},
        }
        m = m + 1;
    }
    let ghost first = order@;
    let mut o: usize = 0;
    proof {
        assert(names.len() == outputs.len());
        lemma_declared(monitors@, names, monitors@.len() as int);
    }
    while o < outputs.len()
        invariant
            o <= outputs.len(),
            names == names_of(outputs@),
            first == declared(monitors@, names, monitors@.len() as int),
            first.no_duplicates(),
            forall|i: int| 0 <= i < first.len() ==> #[trigger] first[i] < names.len(),
            order@ == completed(first, o as int),
        decreases outputs.len() - o,
    {
        proof {
            lemma_completed(first, o as int, names.len() as int);
            if first.contains(o) {
                let i = choose|i: int| 0 <= i < first.len() && first[i] == o;
                assert(order@.contains(first[i]));
            }
        }
        if !contains_index(&order, o) {
            order.push(o);
        }
        o = o + 1;
    }
    proof {
        law_order_is_complete(monitors@, names);
        assert forall|i: int| 0 <= i < order@.len() implies #[trigger] order@[i] < outputs@.len() by {
            assert(order@.contains(order@[i]));
        }
    }
    order
}

/// In the order of the outputs those that the settings name come first, as the
/// settings name them; the others follow by their numbers.
pub proof fn law_named_outputs_come_first(
    ms: Seq<MonitorConfig>,
    names: Seq<Seq<char>>,
    i: int,
    j: int,
)
    requires
        names.len() <= usize::MAX,
        0 <= i < j < ordered(ms, names).len(),
    ensures
        ({
            let all = ordered(ms, names);
            let first = declared(ms, names, ms.len() as int);
            &&& i < first.len() ==> all[i] == first[i]
            &&& i >= first.len() ==> all[i] < all[j]
            &&& j >= first.len() ==> !first.contains(all[j])
        }),
{
    let first = declared(ms, names, ms.len() as int);
    lemma_rest_by_number(first, names.len() as int, j);
    lemma_rest_by_number(first, names.len() as int, i);
    lemma_rest_rises(first, names.len() as int, i, j);
}

proof fn lemma_rest_by_number(first: Seq<usize>, n: int, k: int)
    requires
        0 <= n <= usize::MAX,
        0 <= k < completed(first, n).len(),
    ensures
        completed(first, n).len() >= first.len(),
        k < first.len() ==> completed(first, n)[k] == first[k],
        k >= first.len() ==> completed(first, n)[k] < n && !first.contains(completed(first, n)[k]),
    decreases n,
{
    if n > 0 {
        if k < completed(first, n - 1).len() {
            lemma_rest_by_number(first, n - 1, k);
        } else {
            lemma_rest_length(first, n - 1);
        }
    }
}

proof fn lemma_rest_length(first: Seq<usize>, n: int)
    ensures
        completed(first, n).len() >= first.len(),
    decreases n,
{
    if n > 0 {
        lemma_rest_length(first, n - 1);
    }
}

proof fn lemma_rest_rises(first: Seq<usize>, n: int, i: int, j: int)
    requires
        0 <= n <= usize::MAX,
        0 <= i < j < completed(first, n).len(),
    ensures
        i >= first.len() ==> completed(first, n)[i] < completed(first, n)[j],
    decreases n,
{
    if n > 0 {
        if j < completed(first, n - 1).len() {
            lemma_rest_rises(first, n - 1, i, j);
        } else {
            lemma_rest_by_number(first, n - 1, i);
        }
    }
}

/// Of two outputs, the one stands first whose name the settings give first.
pub proof fn law_settings_give_the_order(
    ms: Seq<MonitorConfig>,
    names: Seq<Seq<char>>,
    n: int,
    m: int,
    o: int,
)
    requires
        0 <= m < n <= ms.len(),
        0 <= o < names.len() <= usize::MAX,
        names[o] == ms[m].name@,
        forall|p: int| 0 <= p < o ==> #[trigger] names[p] != ms[m].name@,
    ensures
        declared(ms, names, m + 1).contains(o as usize),
        declared(ms, names, m + 1).len() <= declared(ms, names, n).len(),
        forall|k: int|
            0 <= k < declared(ms, names, m + 1).len() ==> declared(ms, names, n)[k]
                == #[trigger] declared(ms, names, m + 1)[k],
    decreases n,
{
    if n > m + 1 {
        law_settings_give_the_order(ms, names, n - 1, m, o);
    } else {
        lemma_name_at(names, ms[m].name@, 0, o);
        let before = declared(ms, names, m);
        let after = declared(ms, names, m + 1);
        if !before.contains(o as usize) {
            assert(after[before.len() as int] == o as usize);
        }
    }
}

proof fn lemma_name_at(names: Seq<Seq<char>>, name: Seq<char>, i: int, o: int)
    requires
        0 <= i <= o < names.len(),
        names[o] == name,
        forall|p: int| i <= p < o ==> #[trigger] names[p] != name,
    ensures
        name_from(names, name, i) == o,
    decreases o - i,
{
    if i < o {
        lemma_name_at(names, name, i + 1, o);
    }
}

} // verus!
