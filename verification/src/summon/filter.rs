//! Which applications a query finds.

use vstd::prelude::*;

use crate::scan;
use crate::summon::desktop;
use crate::summon::desktop::{DesktopEntry, EntryView};
use crate::text;

verus! {

/// How well an application matches a query.
#[derive(Clone, Copy, Debug, PartialEq, Eq, Structural)]
pub enum Match {
    /// The name begins with it.
    Prefix,
    /// The name holds it.
    Name,
    /// The command holds it.
    Command,
    Nothing,
}

/// How well an application with this name and command matches a query.
pub open spec fn matched(name: Seq<char>, command: Seq<char>, q: Seq<char>) -> Match {
    if scan::occurs_at(name, q, 0) {
        Match::Prefix
    } else if scan::has_part(name, q) {
        Match::Name
    } else if scan::has_part(command, q) {
        Match::Command
    } else {
        Match::Nothing
    }
}

/// The indices among the first `n` that match a query in one way.
pub open spec fn matching(
    names: Seq<Seq<char>>,
    commands: Seq<Seq<char>>,
    q: Seq<char>,
    how: Match,
    n: int,
) -> Seq<usize>
    decreases n,
{
    if n <= 0 {
        Seq::empty()
    } else if matched(names[n - 1], commands[n - 1], q) == how {
        matching(names, commands, q, how, n - 1).push((n - 1) as usize)
    } else {
        matching(names, commands, q, how, n - 1)
    }
}

/// The indices that a query finds: names that begin with it, then other names
/// that hold it, then commands that hold it.
pub open spec fn found(names: Seq<Seq<char>>, commands: Seq<Seq<char>>, q: Seq<char>) -> Seq<
    usize,
> {
    let n = names.len() as int;
    matching(names, commands, q, Match::Prefix, n) + matching(names, commands, q, Match::Name, n)
        + matching(names, commands, q, Match::Command, n)
}

/// All indices below `n`.
pub open spec fn all_indices(n: nat) -> Seq<usize> {
    Seq::new(n, |i: int| i as usize)
}

/// The names of entries in lowercase.
pub open spec fn lower_names(es: Seq<EntryView>) -> Seq<Seq<char>> {
    es.map_values(|e: EntryView| text::lowercase(e.name))
}

/// The commands of entries in lowercase.
pub open spec fn lower_commands(es: Seq<EntryView>) -> Seq<Seq<char>> {
    es.map_values(|e: EntryView| text::lowercase(e.command))
}

/// The entries that a query finds. Upper and lower case count as equal, and an
/// empty query finds everything.
pub open spec fn filtered(es: Seq<EntryView>, query: Seq<char>) -> Seq<usize> {
    if query.len() == 0 {
        all_indices(es.len())
    } else {
        found(lower_names(es), lower_commands(es), text::lowercase(query))
    }
}

/// How well an application with this name and command matches a query.
pub fn match_entry(name: &str, command: &str, q: &str) -> (m: Match)
    ensures
        m == matched(name@, command@, q@),
{
    if scan::starts_with(name, q) {
        Match::Prefix
    } else if scan::contains_str(name, q) {
        Match::Name
    } else if scan::contains_str(command, q) {
        Match::Command
    } else {
        Match::Nothing
    }
}

fn append(out: &mut Vec<usize>, more: &Vec<usize>)
    ensures
        final(out)@ == old(out)@ + more@,
{
    let ghost first = out@;
    let mut i: usize = 0;
    assert(out@ =~= first + more@.take(0));
    while i < more.len()
        invariant
            i <= more.len(),
            out@ == first + more@.take(i as int),
        decreases more.len() - i,
    {
        out.push(more[i]);
        assert(more@.take(i + 1) =~= more@.take(i as int).push(more@[i as int]));
        assert(out@ =~= first + more@.take(i + 1));
        i = i + 1;
    }
    assert(more@.take(more@.len() as int) =~= more@);
}

/// The indices that a query finds among names and commands that are in
/// lowercase, as the query is.
pub fn filter_lowercase(names: &Vec<String>, commands: &Vec<String>, q: &str) -> (out: Vec<usize>)
    requires
        names.len() == commands.len(),
    ensures
        out@ == found(text::views(names@), text::views(commands@), q@),
{
    let ghost ns = text::views(names@);
    let ghost cs = text::views(commands@);
    let mut prefix: Vec<usize> = Vec::new();
    let mut name_sub: Vec<usize> = Vec::new();
    let mut command_sub: Vec<usize> = Vec::new();
    let mut i: usize = 0;
    while i < names.len()
        invariant
            i <= names.len(),
            names.len() == commands.len(),
            ns == text::views(names@),
            cs == text::views(commands@),
            prefix@ == matching(ns, cs, q@, Match::Prefix, i as int),
            name_sub@ == matching(ns, cs, q@, Match::Name, i as int),
            command_sub@ == matching(ns, cs, q@, Match::Command, i as int),
        decreases names.len() - i,
    {
        assert(ns[i as int] == names@[i as int]@);
        assert(cs[i as int] == commands@[i as int]@);
        match match_entry(names[i].as_str(), commands[i].as_str(), q) {
            Match::Prefix => {
                prefix.push(i);
            },
            Match::Name => {
                name_sub.push(i);
            },
            Match::Command => {
                command_sub.push(i);
            },
            Match::Nothing => {},
        }
        i = i + 1;
    }
    append(&mut prefix, &name_sub);
    append(&mut prefix, &command_sub);
    prefix
}

/// The entries that a query finds. The case of the query never matters: its
/// lowercase form finds the same. And a longer query only narrows the result:
/// nothing is found that any query would not find whose lowercase form is a
/// part of that of this one.
pub fn filter(entries: &Vec<DesktopEntry>, query: &str) -> (out: Vec<usize>)
    ensures
        out@ == filtered(desktop::entry_views(entries@), query@),
        out@ == filtered(desktop::entry_views(entries@), text::lowercase(query@)),
        forall|part: Seq<char>, x: usize|
            #![trigger filtered(desktop::entry_views(entries@), part).contains(x)]
            scan::has_part(text::lowercase(query@), text::lowercase(part)) && out@.contains(x)
                ==> filtered(desktop::entry_views(entries@), part).contains(x),
{
    let ghost es = desktop::entry_views(entries@);
    let q: String = query.to_lowercase();
    proof {
        assert(es.len() == entries.len());
        lemma_lowercase_finds_the_same(es, query@);
        assert forall|part: Seq<char>, x: usize|
            #![trigger filtered(es, part).contains(x)]
            scan::has_part(text::lowercase(query@), text::lowercase(part)) && filtered(
                es,
                query@,
            ).contains(x) implies filtered(es, part).contains(x) by {
            law_typing_on_narrows(es, part, query@, x);
        }
    }
    if query.is_empty() {
        let mut out: Vec<usize> = Vec::new();
        let mut i: usize = 0;
        while i < entries.len()
            invariant
                i <= entries.len(),
                out@ == all_indices(i as nat),
            decreases entries.len() - i,
        {
            out.push(i);
            assert(all_indices((i + 1) as nat) =~= all_indices(i as nat).push(i));
            i = i + 1;
        }
        return out;
    }
    let mut names: Vec<String> = Vec::new();
    let mut commands: Vec<String> = Vec::new();
    let mut i: usize = 0;
    assert(text::views(names@) =~= lower_names(es).take(0));
    assert(text::views(commands@) =~= lower_commands(es).take(0));
    while i < entries.len()
        invariant
            i <= entries.len(),
            es == desktop::entry_views(entries@),
            names@.len() == i,
            commands@.len() == i,
            text::views(names@) == lower_names(es).take(i as int),
            text::views(commands@) == lower_commands(es).take(i as int),
        decreases entries.len() - i,
    {
        assert(es[i as int] == entries@[i as int]@);
        let ghost ns = text::views(names@);
        let ghost cs = text::views(commands@);
        let n: String = entries[i].name.as_str().to_lowercase();
        let c: String = entries[i].command.as_str().to_lowercase();
        names.push(n);
        commands.push(c);
        assert(text::views(names@) =~= ns.push(n@));
        assert(text::views(commands@) =~= cs.push(c@));
        assert(lower_names(es).take(i + 1) =~= lower_names(es).take(i as int).push(
            lower_names(es)[i as int],
        ));
        assert(lower_commands(es).take(i + 1) =~= lower_commands(es).take(i as int).push(
            lower_commands(es)[i as int],
        ));
        i = i + 1;
    }
    assert(lower_names(es).take(es.len() as int) =~= lower_names(es));
    assert(lower_commands(es).take(es.len() as int) =~= lower_commands(es));
    filter_lowercase(&names, &commands, q.as_str())
}

/// Whether a query looks like a command rather than a name.
pub open spec fn looks_like_command(query: Seq<char>) -> bool {
    query.contains('/') || query.contains(' ')
}

/// Whether a query looks like a command rather than a name.
pub fn is_command(query: &str) -> (r: bool)
    ensures
        r == looks_like_command(query@),
{
    scan::contains_char(query, '/') || scan::contains_char(query, ' ')
}

proof fn lemma_matching(
    names: Seq<Seq<char>>,
    commands: Seq<Seq<char>>,
    q: Seq<char>,
    how: Match,
    n: int,
)
    requires
        0 <= n <= names.len(),
        n <= usize::MAX,
    ensures
        forall|k: int|
            0 <= k < matching(names, commands, q, how, n).len() ==> (#[trigger] matching(
                names,
                commands,
                q,
                how,
                n,
            )[k]) < n && matched(
                names[matching(names, commands, q, how, n)[k] as int],
                commands[matching(names, commands, q, how, n)[k] as int],
                q,
            ) == how,
        forall|i: int, j: int|
            0 <= i < j < matching(names, commands, q, how, n).len() ==> (#[trigger] matching(
                names,
                commands,
                q,
                how,
                n,
            )[i]) < (#[trigger] matching(names, commands, q, how, n)[j]),
        forall|x: usize|
            x < n && matched(names[x as int], commands[x as int], q) == how
                ==> #[trigger] matching(names, commands, q, how, n).contains(x),
    decreases n,
{
    if n > 0 {
        lemma_matching(names, commands, q, how, n - 1);
        let before = matching(names, commands, q, how, n - 1);
        let out = matching(names, commands, q, how, n);
        assert forall|x: usize|
            x < n && matched(names[x as int], commands[x as int], q)
                == how implies #[trigger] out.contains(x) by {
            if x < n - 1 {
                assert(before.contains(x));
                let k = choose|k: int| 0 <= k < before.len() && before[k] == x;
                assert(out[k] == x);
            } else {
                assert(out[out.len() - 1] == x);
            }
        }
    }
}

/// How far behind a match is listed.
pub open spec fn place_of(m: Match) -> int {
    match m {
        Match::Prefix => 0,
        Match::Name => 1,
        Match::Command => 2,
        Match::Nothing => 3,
    }
}

/// Whether an index is listed before another: the better match first, and
/// equal ones in their order.
pub open spec fn better(
    names: Seq<Seq<char>>,
    commands: Seq<Seq<char>>,
    q: Seq<char>,
    x: usize,
    y: usize,
) -> bool {
    let a = place_of(matched(names[x as int], commands[x as int], q));
    let b = place_of(matched(names[y as int], commands[y as int], q));
    a < b || (a == b && x < y)
}

/// A query finds exactly what matches it, each once, the better matches first.
pub proof fn law_matches_by_rank(
    names: Seq<Seq<char>>,
    commands: Seq<Seq<char>>,
    q: Seq<char>,
)
    requires
        names.len() == commands.len(),
        names.len() <= usize::MAX,
    ensures
        forall|x: usize|
            #[trigger] found(names, commands, q).contains(x) <==> x < names.len() && matched(
                names[x as int],
                commands[x as int],
                q,
            ) != Match::Nothing,
        forall|i: int, j: int|
            0 <= i < j < found(names, commands, q).len() ==> better(
                names,
                commands,
                q,
                #[trigger] found(names, commands, q)[i],
                #[trigger] found(names, commands, q)[j],
            ),
{
    let n = names.len() as int;
    let a = matching(names, commands, q, Match::Prefix, n);
    let b = matching(names, commands, q, Match::Name, n);
    let c = matching(names, commands, q, Match::Command, n);
    let out = found(names, commands, q);
    lemma_matching(names, commands, q, Match::Prefix, n);
    lemma_matching(names, commands, q, Match::Name, n);
    lemma_matching(names, commands, q, Match::Command, n);
    assert(out == a + b + c);
    assert forall|k: int| 0 <= k < out.len() implies #[trigger] out[k] == (if k < a.len() {
        a[k]
    } else if k < a.len() + b.len() {
        b[k - a.len()]
    } else {
        c[k - a.len() - b.len()]
    }) by {}
    assert forall|x: usize| #[trigger] out.contains(x) <==> x < n && matched(
        names[x as int],
        commands[x as int],
        q,
    ) != Match::Nothing by {
        if out.contains(x) {
            let k = choose|k: int| 0 <= k < out.len() && out[k] == x;
            assert(out[k] == x);
        }
        if x < n {
            let m = matched(names[x as int], commands[x as int], q);
            if m == Match::Prefix {
                assert(a.contains(x));
                let k = choose|k: int| 0 <= k < a.len() && a[k] == x;
                assert(out[k] == x);
            } else if m == Match::Name {
                assert(b.contains(x));
                let k = choose|k: int| 0 <= k < b.len() && b[k] == x;
                assert(out[a.len() + k] == x);
            } else if m == Match::Command {
                assert(c.contains(x));
                let k = choose|k: int| 0 <= k < c.len() && c[k] == x;
                assert(out[a.len() + b.len() + k] == x);
            }
        }
    }
}

proof fn lemma_part_of_part(whole: Seq<char>, part: Seq<char>, piece: Seq<char>)
    requires
        scan::has_part(whole, part),
        scan::has_part(part, piece),
    ensures
        scan::has_part(whole, piece),
{
    let a = choose|a: int| scan::occurs_at(whole, part, a);
    let b = choose|b: int| scan::occurs_at(part, piece, b);
    assert forall|i: int| 0 <= i < piece.len() implies whole[a + b + i] == piece[i] by {
        assert(part[b + i] == piece[i]);
        assert(whole[a + (b + i)] == part[b + i]);
    }
    assert(scan::occurs_at(whole, piece, a + b));
}

/// A longer query only narrows what is found: it finds nothing that a part of
/// it would not find.
pub proof fn law_longer_query_narrows(
    names: Seq<Seq<char>>,
    commands: Seq<Seq<char>>,
    q1: Seq<char>,
    q2: Seq<char>,
    x: usize,
)
    requires
        names.len() == commands.len(),
        names.len() <= usize::MAX,
        scan::has_part(q2, q1),
        found(names, commands, q2).contains(x),
    ensures
        found(names, commands, q1).contains(x),
{
    law_matches_by_rank(names, commands, q1);
    law_matches_by_rank(names, commands, q2);
    let name = names[x as int];
    let command = commands[x as int];
    if scan::occurs_at(name, q2, 0) || scan::has_part(name, q2) {
        assert(scan::has_part(name, q2));
        lemma_part_of_part(name, q2, q1);
    } else {
        lemma_part_of_part(command, q2, q1);
    }
}

proof fn lemma_prefix_all(names: Seq<Seq<char>>, commands: Seq<Seq<char>>, q: Seq<char>, n: int)
    requires
        q.len() == 0,
        0 <= n <= names.len(),
    ensures
        matching(names, commands, q, Match::Prefix, n) == all_indices(n as nat),
        matching(names, commands, q, Match::Name, n) == Seq::<usize>::empty(),
        matching(names, commands, q, Match::Command, n) == Seq::<usize>::empty(),
    decreases n,
{
    if n > 0 {
        lemma_prefix_all(names, commands, q, n - 1);
        assert(scan::occurs_at(names[n - 1], q, 0));
        assert(all_indices(n as nat) =~= all_indices((n - 1) as nat).push((n - 1) as usize));
    } else {
        assert(all_indices(0) =~= Seq::<usize>::empty());
    }
}

/// Every name begins with the empty text.
proof fn lemma_empty_finds_all(names: Seq<Seq<char>>, commands: Seq<Seq<char>>, q: Seq<char>)
    requires
        q.len() == 0,
    ensures
        found(names, commands, q) == all_indices(names.len()),
{
    lemma_prefix_all(names, commands, q, names.len() as int);
    assert(found(names, commands, q) =~= all_indices(names.len()));
}

proof fn lemma_lowercase_finds_the_same(es: Seq<EntryView>, query: Seq<char>)
    requires
        query.len() == 0 ==> text::lowercase(query).len() == 0,
        text::lowercase(text::lowercase(query)) == text::lowercase(query),
    ensures
        filtered(es, text::lowercase(query)) == filtered(es, query),
{
    if query.len() > 0 && text::lowercase(query).len() == 0 {
        lemma_empty_finds_all(lower_names(es), lower_commands(es), text::lowercase(query));
    }
}

/// Typing on only narrows the list of the entries: where a query holds another,
/// both in lowercase, it finds nothing that the other does not find.
pub proof fn law_typing_on_narrows(
    es: Seq<EntryView>,
    q1: Seq<char>,
    q2: Seq<char>,
    x: usize,
)
    requires
        es.len() <= usize::MAX,
        q2.len() == 0 ==> text::lowercase(q2).len() == 0,
        scan::has_part(text::lowercase(q2), text::lowercase(q1)),
        filtered(es, q2).contains(x),
    ensures
        filtered(es, q1).contains(x),
{
    let ns = lower_names(es);
    let cs = lower_commands(es);
    if q2.len() > 0 {
        law_matches_by_rank(ns, cs, text::lowercase(q2));
    } else {
        let k = choose|k: int| 0 <= k < all_indices(es.len()).len() && all_indices(es.len())[k] == x;
        assert(x < es.len());
    }
    if q1.len() == 0 {
        assert(all_indices(es.len())[x as int] == x);
    } else if q2.len() == 0 {
        lemma_empty_finds_all(ns, cs, text::lowercase(q1));
        assert(all_indices(es.len())[x as int] == x);
    } else {
        law_longer_query_narrows(ns, cs, text::lowercase(q1), text::lowercase(q2), x);
    }
}

/// The case of a query does not matter: two that are the same in lowercase find
/// the same.
pub proof fn law_case_does_not_matter(es: Seq<EntryView>, q1: Seq<char>, q2: Seq<char>)
    requires
        text::lowercase(q1) == text::lowercase(q2),
        q1.len() == 0 <==> q2.len() == 0,
    ensures
        filtered(es, q1) == filtered(es, q2),
{
}

/// A query finds what has it in its name or in its command, and nothing else.
/// Names that begin with it come first, then other names that hold it, then
/// what holds it in its command alone; within each kind the order stays.
pub proof fn law_names_before_commands(
    names: Seq<Seq<char>>,
    commands: Seq<Seq<char>>,
    q: Seq<char>,
    i: int,
    j: int,
)
    requires
        names.len() == commands.len(),
        names.len() <= usize::MAX,
    ensures
        forall|x: usize| #[trigger]
            found(names, commands, q).contains(x) <==> x < names.len() && (scan::has_part(
                names[x as int],
                q,
            ) || scan::has_part(commands[x as int], q)),
        0 <= i < j < found(names, commands, q).len() ==> {
            let rank = |x: usize|
                if scan::occurs_at(names[x as int], q, 0) {
                    0int
                } else if scan::has_part(names[x as int], q) {
                    1
                } else {
                    2
                };
            let a = found(names, commands, q)[i];
            let b = found(names, commands, q)[j];
            rank(a) < rank(b) || (rank(a) == rank(b) && a < b)
        },
{
    law_matches_by_rank(names, commands, q);
    assert forall|x: usize| x < names.len() && scan::occurs_at(
        names[x as int],
        q,
        0,
    ) implies #[trigger] scan::has_part(names[x as int], q) by {}
    if 0 <= i < j < found(names, commands, q).len() {
        let f = found(names, commands, q);
        assert(f.contains(f[i]) && f.contains(f[j]));
    }
}

} // verus!
