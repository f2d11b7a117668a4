//! The applications that can be launched.

use vstd::prelude::*;

use crate::ipc::client;
use crate::ipc::client::join;
use crate::scan;
use crate::text;
use crate::text::{copy_opt, copy_str, eq_str};

verus! {

/// An application.
#[derive(Debug)]
pub struct DesktopEntry {
    pub name: String,
    /// The command that starts it.
    pub command: String,
    pub comment: Option<String>,
    pub terminal: bool,
}

#[verifier::ext_equal]
pub struct EntryView {
    pub name: Seq<char>,
    pub command: Seq<char>,
    pub comment: Option<Seq<char>>,
    pub terminal: bool,
}

impl View for DesktopEntry {
    type V = EntryView;

    open spec fn view(&self) -> EntryView {
        EntryView {
            name: self.name@,
            command: self.command@,
            comment: text::opt_view(self.comment),
            terminal: self.terminal,
        }
    }
}

/// The models of the entries.
pub open spec fn entry_views(v: Seq<DesktopEntry>) -> Seq<EntryView> {
    v.map_values(|e: DesktopEntry| e@)
}

fn copy_entry(e: &DesktopEntry) -> (out: DesktopEntry)
    ensures
        out@ == e@,
{
    DesktopEntry {
        name: copy_str(&e.name),
        command: copy_str(&e.command),
        comment: copy_opt(&e.comment),
        terminal: e.terminal,
    }
}

// ---- Commands ---------------------------------------------------------------

/// A command from index `i` on without its field codes: each `%` goes with the
/// character behind it.
pub open spec fn without_codes(s: Seq<char>, i: int) -> Seq<char>
    decreases s.len() + 1 - i,
{
    if i >= s.len() {
        Seq::empty()
    } else if s[i] == '%' {
        without_codes(s, i + 2)
    } else {
        seq![s[i]] + without_codes(s, i + 1)
    }
}

/// A command without its field codes and the space around it.
pub fn strip_field_codes(command: &str) -> (out: String)
    ensures
        out@ == scan::trimmed(without_codes(command@, 0)),
{
    let cs: Vec<char> = text::chars_of(command);
    let mut kept: String = String::new();
    let mut i: usize = 0;
    assert(kept@ + without_codes(command@, 0) =~= without_codes(command@, 0));
    while i < cs.len()
        invariant
            cs@ == command@,
            kept@ + without_codes(command@, i as int) == without_codes(command@, 0),
        decreases cs.len() - i,
    {
        if cs[i] == '%' {
            if i + 1 < cs.len() {
                i = i + 2;
            } else {
                assert(without_codes(command@, i + 2) =~= without_codes(command@, i + 1));
                i = i + 1;
            }
        } else {
            let ghost before = kept@;
            kept.push(cs[i]);
            assert(kept@ + without_codes(command@, i + 1) =~= before + (seq![command@[i as int]]
                + without_codes(command@, i + 1)));
            i = i + 1;
        }
    }
    assert(kept@ =~= without_codes(command@, 0));
    scan::trim(kept.as_str())
}

proof fn lemma_codes_gone(s: Seq<char>, i: int)
    requires
        0 <= i,
    ensures
        !without_codes(s, i).contains('%'),
    decreases s.len() + 1 - i,
{
    if i < s.len() {
        if s[i] == '%' {
            lemma_codes_gone(s, i + 2);
        } else {
            lemma_codes_gone(s, i + 1);
            let rest = without_codes(s, i + 1);
            assert forall|k: int| 0 <= k < without_codes(s, i).len() implies without_codes(s, i)[k]
                != '%' by {
                if k > 0 {
                    assert(without_codes(s, i)[k] == rest[k - 1]);
                    assert(rest.contains(rest[k - 1]));
                }
            }
        }
    }
}

/// No field code is left in a command.
pub proof fn law_no_field_codes(s: Seq<char>)
    ensures
        !scan::trimmed(without_codes(s, 0)).contains('%'),
{
    lemma_codes_gone(s, 0);
    let t = without_codes(s, 0);
    let a = scan::lemma_trimmed(t);
    assert forall|k: int| 0 <= k < scan::trimmed(t).len() implies scan::trimmed(t)[k] != '%' by {
        assert(scan::trimmed(t)[k] == t[a + k]);
        assert(t.contains(t[a + k]));
    }
}

/// Taking the field codes out of a command twice is taking them out once.
pub proof fn law_stripping_twice(s: Seq<char>)
    ensures
        scan::trimmed(without_codes(scan::trimmed(without_codes(s, 0)), 0)) == scan::trimmed(
            without_codes(s, 0),
        ),
{
    let t = scan::trimmed(without_codes(s, 0));
    law_no_field_codes(s);
    lemma_no_codes(t, 0);
    assert(t.skip(0) =~= t);
    scan::law_trimming_twice(without_codes(s, 0));
}

proof fn lemma_no_codes(s: Seq<char>, i: int)
    requires
        !s.contains('%'),
        0 <= i <= s.len(),
    ensures
        without_codes(s, i) == s.skip(i),
    decreases s.len() - i,
{
    if i < s.len() {
        assert(s.contains(s[i]));
        lemma_no_codes(s, i + 1);
        assert(seq![s[i]] + s.skip(i + 1) =~= s.skip(i));
    } else {
        assert(s.skip(i) =~= Seq::<char>::empty());
    }
}

// ---- Desktop files ----------------------------------------------------------

/// What has been read of a desktop file.
#[verifier::ext_equal]
pub struct FileView {
    /// Whether the lines belong to the entry.
    pub inside: bool,
    pub name: Option<Seq<char>>,
    pub command: Option<Seq<char>>,
    pub comment: Option<Seq<char>>,
    pub terminal: bool,
    pub no_display: bool,
    pub hidden: bool,
    pub kind: Option<Seq<char>>,
}

/// Before the first line.
pub open spec fn nothing_read() -> FileView {
    FileView {
        inside: false,
        name: None,
        command: None,
        comment: None,
        terminal: false,
        no_display: false,
        hidden: false,
        kind: None,
    }
}

/// Whether a value stands for yes.
pub open spec fn is_true(value: Seq<char>) -> bool {
    scan::ascii_lowercase(value) == "true"@
}

/// A key of the entry and its value.
pub open spec fn with_key(f: FileView, key: Seq<char>, value: Seq<char>) -> FileView {
    if key == "Name"@ {
        FileView { name: Some(value), ..f }
    } else if key == "Exec"@ {
        FileView { command: Some(scan::trimmed(without_codes(value, 0))), ..f }
    } else if key == "Comment"@ {
        FileView { comment: Some(value), ..f }
    } else if key == "Terminal"@ {
        FileView { terminal: is_true(value), ..f }
    } else if key == "NoDisplay"@ {
        FileView { no_display: is_true(value), ..f }
    } else if key == "Hidden"@ {
        FileView { hidden: is_true(value), ..f }
    } else if key == "Type"@ {
        FileView { kind: Some(value), ..f }
    } else {
        f
    }
}

/// One more line.
pub open spec fn with_line(f: FileView, line: Seq<char>) -> FileView {
    let line = scan::trimmed(line);
    if line.len() > 0 && line[0] == '[' {
        FileView { inside: line == "[Desktop Entry]"@, ..f }
    } else if !f.inside {
        f
    } else {
        match scan::split_at_char(line, '=') {
            Some((key, value)) => with_key(f, scan::trimmed(key), scan::trimmed(value)),
            None => f,
        }
    }
}

/// The first `n` lines.
pub open spec fn read_lines(ls: Seq<Seq<char>>, n: int) -> FileView
    decreases n,
{
    if n <= 0 {
        nothing_read()
    } else {
        with_line(read_lines(ls, n - 1), ls[n - 1])
    }
}

/// The application that a desktop file describes: one that is to be shown,
/// with a name and a command.
pub open spec fn entry_of(content: Seq<char>) -> Option<EntryView> {
    let ls = scan::lines_of(content);
    let f = read_lines(ls, ls.len() as int);
    if f.kind == Some("Application"@) && !f.no_display && !f.hidden && f.name is Some
        && f.command is Some {
        Some(
            EntryView {
                name: f.name->0,
                command: f.command->0,
                comment: f.comment,
                terminal: f.terminal,
            },
        )
    } else {
        None
    }
}

struct DesktopFile {
    inside: bool,
    name: Option<String>,
    command: Option<String>,
    comment: Option<String>,
    terminal: bool,
    no_display: bool,
    hidden: bool,
    kind: Option<String>,
}

impl View for DesktopFile {
    type V = FileView;

    closed spec fn view(&self) -> FileView {
        FileView {
            inside: self.inside,
            name: text::opt_view(self.name),
            command: text::opt_view(self.command),
            comment: text::opt_view(self.comment),
            terminal: self.terminal,
            no_display: self.no_display,
            hidden: self.hidden,
            kind: text::opt_view(self.kind),
        }
    }
}

fn truth(value: &str) -> (r: bool)
    ensures
        r == is_true(value@),
{
    let low: String = scan::to_ascii_lowercase(value);
    eq_str(low.as_str(), "true")
}

impl DesktopFile {
    fn set_key(&mut self, key: &str, value: String)
        ensures
            final(self)@ == with_key(old(self)@, key@, value@),
    {
        if eq_str(key, "Name") {
            self.name = Some(value);
        } else if eq_str(key, "Exec") {
            self.command = Some(strip_field_codes(value.as_str()));
        } else if eq_str(key, "Comment") {
            self.comment = Some(value);
        } else if eq_str(key, "Terminal") {
            self.terminal = truth(value.as_str());
        } else if eq_str(key, "NoDisplay") {
            self.no_display = truth(value.as_str());
        } else if eq_str(key, "Hidden") {
            self.hidden = truth(value.as_str());
        } else if eq_str(key, "Type") {
            self.kind = Some(value);
        }
    }

    fn read_line(&mut self, raw: &str)
        ensures
            final(self)@ == with_line(old(self)@, raw@),
    {
        let line: String = scan::trim(raw);
        let cs: Vec<char> = text::chars_of(line.as_str());
        if cs.len() > 0 && cs[0] == '[' {
            self.inside = eq_str(line.as_str(), "[Desktop Entry]");
        } else if self.inside {
            match scan::split_once(line.as_str(), '=') {
                Some((key, value)) => {
                    let key: String = scan::trim(key.as_str());
                    let value: String = scan::trim(value.as_str());
                    self.set_key(key.as_str(), value);
                },
                None => {},
            }
        }
    }
}

/// The application that a desktop file with this content describes.
pub fn parse_desktop_file(content: &str) -> (out: Option<DesktopEntry>)
    ensures
        match out {
            Some(e) => entry_of(content@) == Some(e@),
            None => entry_of(content@) is None,
        },
{
    let ls: Vec<String> = scan::lines(content);
    let ghost all = text::views(ls@);
    let mut f: DesktopFile = DesktopFile {
        inside: false,
        name: None,
        command: None,
        comment: None,
        terminal: false,
        no_display: false,
        hidden: false,
        kind: None,
    };
    let mut i: usize = 0;
    while i < ls.len()
        invariant
            all == text::views(ls@),
            i <= ls.len(),
            f@ == read_lines(all, i as int),
        decreases ls.len() - i,
    {
        assert(all[i as int] == ls@[i as int]@);
        f.read_line(ls[i].as_str());
        i = i + 1;
    }
    let application: bool = match &f.kind {
        Some(k) => eq_str(k.as_str(), "Application"),
        None => false,
    };
    if !application || f.no_display || f.hidden {
        return None;
    }
    match (f.name, f.command) {
        (Some(name), Some(command)) => Some(
            DesktopEntry { name, command, comment: f.comment, terminal: f.terminal },
        ),
        _ => None,
    }
}

// ---- Where they are ---------------------------------------------------------

/// The directories of the first `n` data directories.
pub open spec fn dirs_of(pieces: Seq<Seq<char>>, n: int) -> Seq<Seq<char>>
    decreases n,
{
    if n <= 0 {
        Seq::empty()
    } else if pieces[n - 1].len() == 0 {
        dirs_of(pieces, n - 1)
    } else {
        dirs_of(pieces, n - 1).push(client::joined(pieces[n - 1], "applications"@))
    }
}

/// The directories with desktop files: that of the user first, then those of
/// the system.
pub open spec fn searched_dirs(local: Option<Seq<char>>, data_dirs: Option<Seq<char>>) -> Seq<
    Seq<char>,
> {
    let first = match local {
        Some(d) => seq![client::joined(d, "applications"@)],
        None => Seq::empty(),
    };
    let list = match data_dirs {
        Some(d) => d,
        None => "/usr/local/share:/usr/share"@,
    };
    let pieces = scan::pieces_from(list, ':', 0);
    first + dirs_of(pieces, pieces.len() as int)
}

/// The directories with desktop files. `local` is the data directory of the
/// user, `data_dirs` the value of `XDG_DATA_DIRS`.
pub fn application_dirs(local: &Option<String>, data_dirs: &Option<String>) -> (out: Vec<String>)
    ensures
        text::views(out@) == searched_dirs(text::opt_view(*local), text::opt_view(*data_dirs)),
{
    let mut out: Vec<String> = Vec::new();
    match local {
        Some(d) => {
            out.push(join(d.as_str(), "applications"));
        },
        None => {},
    }
    let ghost first = text::views(out@);
    assert(first =~= (match text::opt_view(*local) {
        Some(d) => seq![client::joined(d, "applications"@)],
        None => Seq::empty(),
    }));
    let pieces: Vec<String> = match data_dirs {
        Some(d) => scan::split_char(d.as_str(), ':'),
        None => scan::split_char("/usr/local/share:/usr/share", ':'),
    };
    let ghost all = text::views(pieces@);
    let mut i: usize = 0;
    assert(text::views(out@) =~= first + dirs_of(all, 0));
    while i < pieces.len()
        invariant
            i <= pieces.len(),
            all == text::views(pieces@),
            text::views(out@) == first + dirs_of(all, i as int),
        decreases pieces.len() - i,
    {
        assert(all[i as int] == pieces@[i as int]@);
        let ghost before = text::views(out@);
        if !pieces[i].as_str().is_empty() {
            let p: String = join(pieces[i].as_str(), "applications");
            out.push(p);
            assert(text::views(out@) =~= before.push(p@));
            assert(text::views(out@) =~= first + dirs_of(all, i + 1));
        }
        i = i + 1;
    }
    out
}

// ---- Order ------------------------------------------------------------------

/// Whether a text stands before another in a sorted list, from index `i` on.
pub open spec fn less_from(a: Seq<char>, b: Seq<char>, i: int) -> bool
    decreases b.len() - i,
{
    if i >= b.len() {
        false
    } else if i >= a.len() {
        true
    } else if a[i] != b[i] {
        (a[i] as int) < (b[i] as int)
    } else {
        less_from(a, b, i + 1)
    }
}

/// Whether a text stands before another in a sorted list.
pub open spec fn less(a: Seq<char>, b: Seq<char>) -> bool {
    less_from(a, b, 0)
}

fn code_of(c: char) -> (code: u32)
    ensures
        code == c as int,
{
    c as u32
}

fn is_less(a: &str, b: &str) -> (r: bool)
    ensures
        r == less(a@, b@),
{
    let x: Vec<char> = text::chars_of(a);
    let y: Vec<char> = text::chars_of(b);
    let mut i: usize = 0;
    while i < x.len() && i < y.len() && x[i] == y[i]
        invariant
            x@ == a@,
            y@ == b@,
            i <= x.len(),
            i <= y.len(),
            less(a@, b@) == less_from(a@, b@, i as int),
        decreases x.len() - i,
    {
        i = i + 1;
    }
    if i >= y.len() {
        false
    } else if i >= x.len() {
        true
    } else {
        code_of(x[i]) < code_of(y[i])
    }
}

/// An order with one more index: behind all whose key is not greater.
pub open spec fn inserted(keys: Seq<Seq<char>>, order: Seq<usize>, x: usize) -> Seq<usize>
    decreases order.len(),
{
    if order.len() == 0 || !less(keys[x as int], keys[order.last() as int]) {
        order.push(x)
    } else {
        inserted(keys, order.drop_last(), x).push(order.last())
    }
}

/// The indices of the first `n` keys, by their keys; equal keys keep their
/// order.
pub open spec fn order_of(keys: Seq<Seq<char>>, n: int) -> Seq<usize>
    decreases n,
{
    if n <= 0 {
        Seq::empty()
    } else {
        inserted(keys, order_of(keys, n - 1), (n - 1) as usize)
    }
}

proof fn lemma_inserted_at(keys: Seq<Seq<char>>, order: Seq<usize>, x: usize, p: int)
    requires
        0 <= p <= order.len(),
        p > 0 ==> !less(keys[x as int], keys[order[p - 1] as int]),
        forall|k: int|
            p <= k < order.len() ==> less(keys[x as int], keys[(#[trigger] order[k]) as int]),
    ensures
        inserted(keys, order, x) == order.insert(p, x),
    decreases order.len(),
{
    if p == order.len() {
        assert(order.insert(p, x) =~= order.push(x));
    } else {
        let rest = order.drop_last();
        assert(order.last() == order[order.len() - 1]);
        assert forall|k: int| p <= k < rest.len() implies less(
            keys[x as int],
            keys[(#[trigger] rest[k]) as int],
        ) by {
            assert(rest[k] == order[k]);
        }
        lemma_inserted_at(keys, rest, x, p);
        assert(rest.insert(p, x).push(order.last()) =~= order.insert(p, x));
    }
}

proof fn lemma_inserted_members(keys: Seq<Seq<char>>, order: Seq<usize>, x: usize)
    ensures
        inserted(keys, order, x).len() == order.len() + 1,
        forall|y: usize|
            #![trigger order.contains(y)]
            #![trigger inserted(keys, order, x).contains(y)]
            inserted(keys, order, x).contains(y) <==> (y == x || order.contains(y)),
    decreases order.len(),
{
    let out = inserted(keys, order, x);
    if order.len() == 0 || !less(keys[x as int], keys[order.last() as int]) {
        assert(out == order.push(x));
        assert(out[out.len() - 1] == x);
        assert forall|y: usize|
            #![trigger order.contains(y)]
            #![trigger out.contains(y)]
            out.contains(y) <==> (y == x || order.contains(y)) by {
            if order.contains(y) {
                let k = choose|k: int| 0 <= k < order.len() && order[k] == y;
                assert(out[k] == y);
            }
            if out.contains(y) {
                let k = choose|k: int| 0 <= k < out.len() && out[k] == y;
                if k < order.len() {
                    assert(order[k] == y);
                }
            }
        }
    } else {
        let rest = order.drop_last();
        let inner = inserted(keys, rest, x);
        lemma_inserted_members(keys, rest, x);
        assert(out == inner.push(order.last()));
        assert forall|y: usize|
            #![trigger order.contains(y)]
            #![trigger out.contains(y)]
            out.contains(y) <==> (y == x || order.contains(y)) by {
            if out.contains(y) {
                let k = choose|k: int| 0 <= k < out.len() && out[k] == y;
                if k < inner.len() {
                    assert(inner.contains(inner[k]));
                    assert(rest.contains(y) ==> order.contains(y)) by {
                        if rest.contains(y) {
                            let j = choose|j: int| 0 <= j < rest.len() && rest[j] == y;
                            assert(order[j] == y);
                        }
                    }
                    assert(y == x || rest.contains(y));
                } else {
                    assert(order[order.len() - 1] == y);
                }
            }
            if y == x || order.contains(y) {
                if y != x {
                    let k = choose|k: int| 0 <= k < order.len() && order[k] == y;
                    if k < rest.len() {
                        assert(rest[k] == y);
                        assert(rest.contains(y));
                    } else {
                        assert(out[out.len() - 1] == y);
                    }
                }
                if y == x || rest.contains(y) {
                    assert(inner.contains(y));
                    let k = choose|k: int| 0 <= k < inner.len() && inner[k] == y;
                    assert(out[k] == y);
                }
            }
        }
    }
}

proof fn lemma_order_members(keys: Seq<Seq<char>>, n: int)
    requires
        0 <= n <= usize::MAX,
    ensures
        order_of(keys, n).len() == n,
        forall|y: usize| #[trigger] order_of(keys, n).contains(y) <==> y < n,
        forall|k: int| 0 <= k < n ==> #[trigger] order_of(keys, n)[k] < n,
    decreases n,
{
    if n > 0 {
        let before = order_of(keys, n - 1);
        let out = order_of(keys, n);
        lemma_order_members(keys, n - 1);
        lemma_inserted_members(keys, before, (n - 1) as usize);
        assert forall|y: usize| #[trigger] out.contains(y) <==> y < n by {
            assert(before.contains(y) <==> y < n - 1);
        }
        assert forall|k: int| 0 <= k < n implies #[trigger] out[k] < n by {
            assert(out.contains(out[k]));
        }
    } else {
        assert forall|y: usize| #[trigger] order_of(keys, n).contains(y) <==> y < n by {}
    }
}

/// The order of texts in a sorted list.
pub fn sorted_order(keys: &Vec<String>) -> (order: Vec<usize>)
    ensures
        order@ == order_of(text::views(keys@), keys@.len() as int),
{
    let ghost ks = text::views(keys@);
    let mut order: Vec<usize> = Vec::new();
    let mut i: usize = 0;
    while i < keys.len()
        invariant
            i <= keys.len(),
            ks == text::views(keys@),
            order@ == order_of(ks, i as int),
        decreases keys.len() - i,
    {
        proof {
            lemma_order_members(ks, i as int);
        }
        let mut p: usize = order.len();
        assert(ks[i as int] == keys@[i as int]@);
        while p > 0 && is_less(keys[i].as_str(), keys[order[p - 1]].as_str())
            invariant
                i < keys.len(),
                p <= order.len(),
                ks == text::views(keys@),
                ks[i as int] == keys@[i as int]@,
                forall|k: int| 0 <= k < order@.len() ==> #[trigger] order@[k] < keys@.len(),
                forall|k: int|
                    p <= k < order@.len() ==> less(
                        ks[i as int],
                        ks[(#[trigger] order@[k]) as int],
                    ),
            decreases p,
        {
            assert(ks[order@[p - 1] as int] == keys@[order@[p - 1] as int]@);
            p = p - 1;
        }
        proof {
            if p > 0 {
                assert(ks[order@[p - 1] as int] == keys@[order@[p - 1] as int]@);
            }
            lemma_inserted_at(ks, order@, i, p as int);
        }
        order.insert(p, i);
        i = i + 1;
    }
    order
}

/// Whether an index stands before another: by its key, then by itself.
pub open spec fn comes_before(keys: Seq<Seq<char>>, x: usize, y: usize) -> bool {
    less(keys[x as int], keys[y as int]) || (keys[x as int] == keys[y as int] && x < y)
}

proof fn lemma_less_total(a: Seq<char>, b: Seq<char>, i: int)
    requires
        0 <= i,
        i <= a.len(),
        i <= b.len(),
        forall|k: int| 0 <= k < i ==> a[k] == b[k],
    ensures
        less_from(a, b, i) || less_from(b, a, i) || a == b,
        !(less_from(a, b, i) && less_from(b, a, i)),
        a == b ==> !less_from(a, b, i),
    decreases b.len() - i,
{
    if i < b.len() && i < a.len() && a[i] == b[i] {
        lemma_less_total(a, b, i + 1);
    } else if i >= b.len() && i >= a.len() {
        assert(a =~= b);
    }
}

proof fn lemma_less_chain(a: Seq<char>, b: Seq<char>, c: Seq<char>, i: int)
    requires
        0 <= i,
        less_from(a, b, i),
        less_from(b, c, i),
    ensures
        less_from(a, c, i),
    decreases b.len() - i,
{
    if i < a.len() && i < b.len() && i < c.len() && a[i] == b[i] && b[i] == c[i] {
        lemma_less_chain(a, b, c, i + 1);
    }
}

proof fn lemma_before_chain(keys: Seq<Seq<char>>, x: usize, y: usize, z: usize)
    requires
        comes_before(keys, x, y),
        comes_before(keys, y, z),
    ensures
        comes_before(keys, x, z),
{
    let (a, b, c) = (keys[x as int], keys[y as int], keys[z as int]);
    if less(a, b) && less(b, c) {
        lemma_less_chain(a, b, c, 0);
    }
}

/// Whether indices are in order.
pub open spec fn is_ordered(keys: Seq<Seq<char>>, order: Seq<usize>) -> bool {
    forall|i: int, j: int|
        0 <= i < j < order.len() ==> comes_before(keys, #[trigger] order[i], #[trigger] order[j])
}

proof fn lemma_inserted_ordered(keys: Seq<Seq<char>>, order: Seq<usize>, x: usize)
    requires
        is_ordered(keys, order),
        forall|k: int| 0 <= k < order.len() ==> #[trigger] order[k] < x,
    ensures
        is_ordered(keys, inserted(keys, order, x)),
    decreases order.len(),
{
    let out = inserted(keys, order, x);
    if order.len() > 0 {
        let last = order.last();
        lemma_less_total(keys[x as int], keys[last as int], 0);
        assert(order[order.len() - 1] < x);
        if !less(keys[x as int], keys[last as int]) {
            assert(comes_before(keys, last, x));
            assert forall|i: int, j: int| 0 <= i < j < out.len() implies comes_before(
                keys,
                #[trigger] out[i],
                #[trigger] out[j],
            ) by {
                if j < order.len() {
                    assert(comes_before(keys, order[i], order[j]));
                } else if i < order.len() - 1 {
                    assert(comes_before(keys, order[i], order[order.len() - 1]));
                    lemma_before_chain(keys, order[i], last, x);
                }
            }
        } else {
            let rest = order.drop_last();
            assert forall|i: int, j: int| 0 <= i < j < rest.len() implies comes_before(
                keys,
                #[trigger] rest[i],
                #[trigger] rest[j],
            ) by {
                assert(comes_before(keys, order[i], order[j]));
            }
            assert forall|k: int| 0 <= k < rest.len() implies #[trigger] rest[k] < x by {
                assert(rest[k] == order[k]);
            }
            lemma_inserted_ordered(keys, rest, x);
            lemma_inserted_members(keys, rest, x);
            let inner = inserted(keys, rest, x);
            assert forall|i: int, j: int| 0 <= i < j < out.len() implies comes_before(
                keys,
                #[trigger] out[i],
                #[trigger] out[j],
            ) by {
                if j < inner.len() {
                    assert(comes_before(keys, inner[i], inner[j]));
                } else {
                    assert(inner.contains(inner[i]));
                    if inner[i] != x {
                        assert(rest.contains(inner[i]));
                        let k = choose|k: int| 0 <= k < rest.len() && rest[k] == inner[i];
                        assert(comes_before(keys, order[k], order[order.len() - 1]));
                    }
                }
            }
        }
    }
}

proof fn lemma_ordered(keys: Seq<Seq<char>>, n: int)
    requires
        0 <= n <= usize::MAX,
    ensures
        is_ordered(keys, order_of(keys, n)),
    decreases n,
{
    if n > 0 {
        lemma_ordered(keys, n - 1);
        lemma_order_members(keys, n - 1);
        lemma_inserted_ordered(keys, order_of(keys, n - 1), (n - 1) as usize);
    }
}

/// The order of a list holds every index once, by the keys; equal keys keep
/// the order in which they came.
pub proof fn law_sorted(keys: Seq<Seq<char>>, n: int)
    requires
        0 <= n <= usize::MAX,
    ensures
        order_of(keys, n).len() == n,
        forall|y: usize| #[trigger] order_of(keys, n).contains(y) <==> y < n,
        is_ordered(keys, order_of(keys, n)),
{
    lemma_order_members(keys, n);
    lemma_ordered(keys, n);
}

// ---- The list ---------------------------------------------------------------

/// Whether one of the entries has this name.
pub open spec fn has_name(es: Seq<EntryView>, name: Seq<char>) -> bool {
    exists|k: int| 0 <= k < es.len() && (#[trigger] es[k]).name == name
}

/// The first of each name among the first `n` entries.
pub open spec fn unique(es: Seq<EntryView>, n: int) -> Seq<EntryView>
    decreases n,
{
    if n <= 0 {
        Seq::empty()
    } else if has_name(unique(es, n - 1), es[n - 1].name) {
        unique(es, n - 1)
    } else {
        unique(es, n - 1).push(es[n - 1])
    }
}

/// The names of entries in lowercase.
pub open spec fn sort_keys(es: Seq<EntryView>) -> Seq<Seq<char>> {
    es.map_values(|e: EntryView| text::lowercase(e.name))
}

/// The entries in an order.
pub open spec fn arranged(es: Seq<EntryView>, order: Seq<usize>) -> Seq<EntryView> {
    order.map_values(|i: usize| es[i as int])
}

/// The list of the applications that were found, in the order in which they
/// were found: the first of each name, by the names in lowercase.
pub open spec fn listed(found: Seq<EntryView>) -> Seq<EntryView> {
    let es = unique(found, found.len() as int);
    arranged(es, order_of(sort_keys(es), es.len() as int))
}

fn name_known(es: &Vec<DesktopEntry>, name: &str) -> (r: bool)
    ensures
        r == has_name(entry_views(es@), name@),
{
    let ghost vs = entry_views(es@);
    let mut i: usize = 0;
    while i < es.len()
        invariant
            i <= es.len(),
            vs == entry_views(es@),
            forall|k: int| 0 <= k < i ==> (#[trigger] vs[k]).name != name@,
        decreases es.len() - i,
    {
        assert(vs[i as int] == es@[i as int]@);
        if eq_str(es[i].name.as_str(), name) {
            assert(vs[i as int].name == name@);
            return true;
        }
        i = i + 1;
    }
    false
}

fn drop_duplicates(found: &Vec<DesktopEntry>) -> (out: Vec<DesktopEntry>)
    ensures
        entry_views(out@) == unique(entry_views(found@), found@.len() as int),
{
    let ghost vs = entry_views(found@);
    let mut out: Vec<DesktopEntry> = Vec::new();
    let mut i: usize = 0;
    assert(entry_views(out@) =~= unique(vs, 0));
    while i < found.len()
        invariant
            i <= found.len(),
            vs == entry_views(found@),
            entry_views(out@) == unique(vs, i as int),
        decreases found.len() - i,
    {
        assert(vs[i as int] == found@[i as int]@);
        let ghost before = entry_views(out@);
        if !name_known(&out, found[i].name.as_str()) {
            let e: DesktopEntry = copy_entry(&found[i]);
            out.push(e);
            assert(entry_views(out@) =~= before.push(e@));
        }
        i = i + 1;
    }
    out
}

/// The list of the applications that were found.
pub fn discover(found: &Vec<DesktopEntry>) -> (out: Vec<DesktopEntry>)
    ensures
        entry_views(out@) == listed(entry_views(found@)),
{
    let es: Vec<DesktopEntry> = drop_duplicates(found);
    let ghost vs = entry_views(es@);
    let mut keys: Vec<String> = Vec::new();
    let mut i: usize = 0;
    while i < es.len()
        invariant
            i <= es.len(),
            vs == entry_views(es@),
            text::views(keys@) == sort_keys(vs).take(i as int),
        decreases es.len() - i,
    {
        let ghost before = text::views(keys@);
        let k: String = es[i].name.as_str().to_lowercase();
        keys.push(k);
        assert(vs[i as int] == es@[i as int]@);
        assert(text::views(keys@) =~= before.push(k@));
        assert(sort_keys(vs).take(i + 1) =~= sort_keys(vs).take(i as int).push(
            sort_keys(vs)[i as int],
        ));
        i = i + 1;
    }
    assert(sort_keys(vs).take(es@.len() as int) =~= sort_keys(vs));
    let order: Vec<usize> = sorted_order(&keys);
    assert(keys@.len() == text::views(keys@).len());
    proof {
        lemma_order_members(sort_keys(vs), es@.len() as int);
    }
    let mut out: Vec<DesktopEntry> = Vec::new();
    let mut j: usize = 0;
    assert(entry_views(out@) =~= arranged(vs, order@).take(0));
    while j < order.len()
        invariant
            j <= order.len(),
            vs == entry_views(es@),
            forall|k: int| 0 <= k < order@.len() ==> #[trigger] order@[k] < es@.len(),
            entry_views(out@) == arranged(vs, order@).take(j as int),
        decreases order.len() - j,
    {
        let ghost before = entry_views(out@);
        let e: DesktopEntry = copy_entry(&es[order[j]]);
        assert(vs[order@[j as int] as int] == es@[order@[j as int] as int]@);
        out.push(e);
        assert(entry_views(out@) =~= before.push(e@));
        assert(arranged(vs, order@).take(j + 1) =~= arranged(vs, order@).take(j as int).push(
            arranged(vs, order@)[j as int],
        ));
        j = j + 1;
    }
    assert(arranged(vs, order@).take(order@.len() as int) =~= arranged(vs, order@));
    out
}

proof fn lemma_unique(es: Seq<EntryView>, n: int)
    requires
        0 <= n <= es.len(),
    ensures
        forall|i: int, j: int|
            0 <= i < j < unique(es, n).len() ==> (#[trigger] unique(es, n)[i]).name != (
            #[trigger] unique(es, n)[j]).name,
        forall|k: int| 0 <= k < n ==> has_name(unique(es, n), (#[trigger] es[k]).name),
    decreases n,
{
    if n > 0 {
        lemma_unique(es, n - 1);
        let before = unique(es, n - 1);
        let out = unique(es, n);
        if !has_name(before, es[n - 1].name) {
            assert(out[out.len() - 1].name == es[n - 1].name);
            assert forall|k: int| 0 <= k < n implies has_name(out, (#[trigger] es[k]).name) by {
                if k < n - 1 {
                    let m = choose|m: int|
                        0 <= m < before.len() && (#[trigger] before[m]).name == es[k].name;
                    assert(out[m].name == es[k].name);
                }
            }
        }
    }
}

/// Each name that was found stands in the list, and no name stands there
/// twice.
pub proof fn law_each_name_once(found: Seq<EntryView>)
    requires
        found.len() <= usize::MAX,
    ensures
        forall|i: int, j: int|
            0 <= i < j < listed(found).len() ==> (#[trigger] listed(found)[i]).name != (
            #[trigger] listed(found)[j]).name,
        forall|k: int| 0 <= k < found.len() ==> has_name(listed(found), (#[trigger] found[k]).name),
{
    let es = unique(found, found.len() as int);
    let n = es.len() as int;
    let keys = sort_keys(es);
    lemma_unique(found, found.len() as int);
    lemma_unique_len(found, found.len() as int);
    law_sorted(keys, n);
    let order = order_of(keys, n);
    lemma_order_members(keys, n);
    assert forall|i: int, j: int| 0 <= i < j < listed(found).len() implies (
    #[trigger] listed(found)[i]).name != (#[trigger] listed(found)[j]).name by {
        assert(comes_before(keys, order[i], order[j]));
        let (x, y) = (order[i] as int, order[j] as int);
        lemma_less_total(keys[x], keys[y], 0);
        assert(order[i] < n && order[j] < n);
        assert(x != y);
        if x < y {
            assert(es[x].name != es[y].name);
        } else {
            assert(es[y].name != es[x].name);
        }
    }
    assert forall|k: int| 0 <= k < found.len() implies has_name(
        listed(found),
        (#[trigger] found[k]).name,
    ) by {
        assert(has_name(es, found[k].name));
        let m = choose|m: int| 0 <= m < es.len() && (#[trigger] es[m]).name == found[k].name;
        assert(order.contains(m as usize));
        let p = choose|p: int| 0 <= p < order.len() && order[p] == m as usize;
        assert(listed(found)[p].name == found[k].name);
    }
}

proof fn lemma_unique_len(es: Seq<EntryView>, n: int)
    requires
        0 <= n <= es.len(),
    ensures
        unique(es, n).len() <= n,
    decreases n,
{
    if n > 0 {
        lemma_unique_len(es, n - 1);
    }
}

/// A line of the entry gives the key before its first equals sign the value
/// behind it, both without the space around them. Keys that mean nothing change
/// nothing.
pub proof fn law_lines_give_values(f: FileView, line: Seq<char>, key: Seq<char>, value: Seq<char>)
    requires
        f.inside,
        scan::trimmed(line).len() > 0,
        scan::trimmed(line)[0] != '[',
        scan::split_at_char(scan::trimmed(line), '=') == Some((key, value)),
    ensures
        ({
            let g = with_line(f, line);
            let k = scan::trimmed(key);
            let v = scan::trimmed(value);
            let yes = scan::ascii_lowercase(v) == "true"@;
            &&& g.inside
            &&& k == "Name"@ ==> g == (FileView { name: Some(v), ..f })
            &&& k == "Comment"@ ==> g == (FileView { comment: Some(v), ..f })
            &&& k == "Exec"@ ==> g == (FileView {
                command: Some(scan::trimmed(without_codes(v, 0))),
                ..f
            })
            &&& k == "Terminal"@ ==> g == (FileView { terminal: yes, ..f })
            &&& k == "NoDisplay"@ ==> g == (FileView { no_display: yes, ..f })
            &&& k == "Hidden"@ ==> g == (FileView { hidden: yes, ..f })
            &&& k == "Type"@ ==> g == (FileView { kind: Some(v), ..f })
        }),
{
    reveal_strlit("Name");
    reveal_strlit("Exec");
    reveal_strlit("Comment");
    reveal_strlit("Terminal");
    reveal_strlit("NoDisplay");
    reveal_strlit("Hidden");
    reveal_strlit("Type");
    assert("Name"@[0] == 'N' && "Exec"@[0] == 'E' && "Comment"@[0] == 'C' && "Terminal"@[0] == 'T'
        && "NoDisplay"@[0] == 'N' && "Hidden"@[0] == 'H' && "Type"@[0] == 'T');
    assert("Name"@.len() == 4 && "NoDisplay"@.len() == 9 && "Terminal"@.len() == 8
        && "Type"@.len() == 4);
}

/// Only the lines below the header of the entry count, up to the next header.
pub proof fn law_headers_open_and_close(f: FileView, line: Seq<char>)
    ensures
        scan::trimmed(line) == "[Desktop Entry]"@ ==> with_line(f, line) == (FileView {
            inside: true,
            ..f
        }),
        scan::trimmed(line).len() > 0 && scan::trimmed(line)[0] == '[' && scan::trimmed(line)
            != "[Desktop Entry]"@ ==> with_line(f, line) == (FileView { inside: false, ..f }),
        scan::trimmed(line).len() > 0 && scan::trimmed(line)[0] != '[' && !f.inside ==> with_line(
            f,
            line,
        ) == f,
{
    reveal_strlit("[Desktop Entry]");
}

/// What a file describes is offered where it is an application with a name and
/// a command that is neither hidden nor kept from display.
pub proof fn law_what_is_offered(content: Seq<char>)
    ensures
        ({
            let ls = scan::lines_of(content);
            let f = read_lines(ls, ls.len() as int);
            match entry_of(content) {
                Some(e) => {
                    &&& f.kind == Some("Application"@)
                    &&& !f.no_display
                    &&& !f.hidden
                    &&& f.name == Some(e.name)
                    &&& f.command == Some(e.command)
                    &&& f.comment == e.comment
                    &&& f.terminal == e.terminal
                },
                None => f.kind != Some("Application"@) || f.no_display || f.hidden || f.name is None
                    || f.command is None,
            }
        }),
{
}

/// A text stands before another where, after what they have in common, it ends
/// or goes on with the lower character.
pub proof fn law_order_is_by_letters(a: Seq<char>, b: Seq<char>, k: int)
    requires
        0 <= k <= a.len(),
        k <= b.len(),
        forall|i: int| 0 <= i < k ==> a[i] == b[i],
        k < a.len() && k < b.len() ==> a[k] != b[k],
    ensures
        less(a, b) <==> k < b.len() && (k == a.len() || (a[k] as int) < (b[k] as int)),
{
    lemma_common_letters(a, b, 0, k);
}

proof fn lemma_common_letters(a: Seq<char>, b: Seq<char>, i: int, k: int)
    requires
        0 <= i <= k <= a.len(),
        k <= b.len(),
        forall|j: int| 0 <= j < k ==> a[j] == b[j],
    ensures
        less_from(a, b, i) == less_from(a, b, k),
    decreases k - i,
{
    if i < k {
        lemma_common_letters(a, b, i + 1, k);
    }
}

/// The directory of the user is searched before those of the system; a list of
/// them that is empty in places has no directory there.
pub proof fn law_user_before_system(local: Seq<char>, pieces: Seq<Seq<char>>, n: int, k: int)
    requires
        0 <= k < n <= pieces.len(),
        pieces[k].len() > 0,
    ensures
        dirs_of(pieces, n).contains(client::joined(pieces[k], "applications"@)),
        searched_dirs(Some(local), None)[0] == client::joined(local, "applications"@),
        dirs_of(pieces, n).len() <= n,
    decreases n,
{
    let a = dirs_of(pieces, n - 1);
    let b = dirs_of(pieces, n);
    lemma_dirs_count(pieces, n);
    if k == n - 1 {
        assert(b[a.len() as int] == client::joined(pieces[k], "applications"@));
    } else {
        law_user_before_system(local, pieces, n - 1, k);
        let i = choose|i: int|
            0 <= i < a.len() && a[i] == client::joined(pieces[k], "applications"@);
        assert(b[i] == client::joined(pieces[k], "applications"@));
    }
}

proof fn lemma_dirs_count(pieces: Seq<Seq<char>>, n: int)
    ensures
        n >= 0 ==> dirs_of(pieces, n).len() <= n,
    decreases n,
{
    if n > 0 {
        lemma_dirs_count(pieces, n - 1);
    }
}

/// A command without a percent sign stays as it is; otherwise the first percent
/// sign goes, with the character behind it, and the rest is treated alike.
pub proof fn law_codes_are_taken_out(a: Seq<char>, c: char, b: Seq<char>)
    requires
        !a.contains('%'),
    ensures
        without_codes(a, 0) == a,
        without_codes(a + seq!['%', c] + b, 0) == a + without_codes(b, 0),
{
    let s = a + seq!['%', c] + b;
    lemma_plain_kept(a, a, 0);
    assert(a.skip(0) =~= a);
    assert(without_codes(a, a.len() as int) =~= Seq::<char>::empty());
    assert(a + Seq::<char>::empty() =~= a);
    lemma_plain_kept(a, s, 0);
    assert(s[a.len() as int] == '%');
    lemma_codes_shift(s, b, (a.len() + 2) as int, 0);
}

proof fn lemma_plain_kept(a: Seq<char>, s: Seq<char>, i: int)
    requires
        !a.contains('%'),
        0 <= i <= a.len() <= s.len(),
        forall|k: int| 0 <= k < a.len() ==> s[k] == a[k],
    ensures
        without_codes(s, i) == a.skip(i) + without_codes(s, a.len() as int),
    decreases a.len() - i,
{
    if i < a.len() {
        assert(a.contains(a[i]));
        lemma_plain_kept(a, s, i + 1);
        assert(a.skip(i) =~= seq![s[i]] + a.skip(i + 1));
        assert(seq![s[i]] + (a.skip(i + 1) + without_codes(s, a.len() as int)) =~= a.skip(i)
            + without_codes(s, a.len() as int));
    } else {
        assert(a.skip(i) + without_codes(s, i) =~= without_codes(s, i));
    }
}

proof fn lemma_codes_shift(s: Seq<char>, b: Seq<char>, d: int, i: int)
    requires
        0 <= i,
        0 <= d,
        s.len() == d + b.len(),
        forall|k: int| 0 <= k < b.len() ==> s[d + k] == b[k],
    ensures
        without_codes(s, d + i) == without_codes(b, i),
    decreases b.len() + 1 - i,
{
    if i < b.len() {
        if b[i] == '%' {
            if i + 2 <= b.len() + 1 {
                lemma_codes_shift(s, b, d, i + 2);
            }
        } else {
            lemma_codes_shift(s, b, d, i + 1);
        }
    }
}

} // verus!
