//! The environment of the session and the choice of where it is shown.

use vstd::prelude::*;

use crate::gate::config::General;
use crate::scan;
use crate::text;
use crate::text::eq_str;

verus! {

/// A variable of the environment.
#[derive(Debug)]
pub struct EnvVar {
    pub key: String,
    pub value: String,
}

#[verifier::ext_equal]
pub struct EnvVarView {
    pub key: Seq<char>,
    pub value: Seq<char>,
}

impl View for EnvVar {
    type V = EnvVarView;

    open spec fn view(&self) -> EnvVarView {
        EnvVarView { key: self.key@, value: self.value@ }
    }
}

/// The models of the variables.
pub open spec fn var_views(vs: Seq<EnvVar>) -> Seq<EnvVarView> {
    vs.map_values(|v: EnvVar| v@)
}

/// The variable that a line of a file sets: `key=value`, where the value may
/// stand in quotes. Empty lines and those that start with `#` set none.
pub open spec fn line_var(line: Seq<char>) -> Option<EnvVarView> {
    let t = scan::trimmed(line);
    if t.len() == 0 || t[0] == '#' {
        None
    } else {
        match scan::split_at_char(t, '=') {
            Some((k, v)) => {
                let key = scan::trimmed(k);
                if key.len() == 0 {
                    None
                } else {
                    Some(
                        EnvVarView {
                            key,
                            value: scan::stripped(scan::stripped(scan::trimmed(v), '"'), '\''),
                        },
                    )
                }
            },
            None => None,
        }
    }
}

/// The variables that the first `n` lines set.
pub open spec fn lines_vars(lines: Seq<Seq<char>>, n: int) -> Seq<EnvVarView>
    decreases n,
{
    if n <= 0 {
        Seq::empty()
    } else {
        match line_var(lines[n - 1]) {
            Some(v) => lines_vars(lines, n - 1).push(v),
            None => lines_vars(lines, n - 1),
        }
    }
}

fn parse_line(line: &str) -> (out: Option<EnvVar>)
    ensures
        match out {
            Some(v) => line_var(line@) == Some(v@),
            None => line_var(line@) is None,
        },
{
    let t: String = scan::trim(line);
    let cs: Vec<char> = text::chars_of(t.as_str());
    if cs.len() == 0 || cs[0] == '#' {
        return None;
    }
    match scan::split_once(t.as_str(), '=') {
        Some((k, v)) => {
            let key: String = scan::trim(k.as_str());
            if key.as_str().is_empty() {
                return None;
            }
            let bare: String = scan::trim(v.as_str());
            let once: String = scan::trim_matches(bare.as_str(), '"');
            let value: String = scan::trim_matches(once.as_str(), '\'');
            Some(EnvVar { key, value })
        },
        None => None,
    }
}

/// The variables that a file sets, in order.
pub fn parse_env_file(contents: &str) -> (out: Vec<EnvVar>)
    ensures
        var_views(out@) == lines_vars(
            scan::lines_of(contents@),
            scan::lines_of(contents@).len() as int,
        ),
{
    let lines: Vec<String> = scan::lines(contents);
    let ghost ls = scan::lines_of(contents@);
    let mut out: Vec<EnvVar> = Vec::new();
    let mut i: usize = 0;
    assert(var_views(out@) =~= lines_vars(ls, 0));
    while i < lines.len()
        invariant
            i <= lines.len(),
            ls == text::views(lines@),
            var_views(out@) == lines_vars(ls, i as int),
        decreases lines.len() - i,
    {
        assert(ls[i as int] == lines@[i as int]@);
        match parse_line(lines[i].as_str()) {
            Some(v) => {
                let ghost before = var_views(out@);
                out.push(v);
                assert(var_views(out@) =~= before.push(v@));
            },
            None => {},
        }
        i = i + 1;
    }
    assert(ls.len() == lines@.len());
    out
}

/// A line that is written as `key=value` sets just that, where neither needs
/// trimming or quotes.
pub proof fn law_plain_lines_read_back(key: Seq<char>, value: Seq<char>)
    requires
        key.len() > 0,
        key[0] != '#',
        forall|i: int| 0 <= i < key.len() ==> #[trigger] key[i] != '=' && !scan::is_space(key[i]),
        forall|i: int|
            0 <= i < value.len() ==> !scan::is_space(#[trigger] value[i]) && value[i] != '"'
                && value[i] != '\'',
    ensures
        line_var(key + seq!['='] + value) == Some(EnvVarView { key, value }),
{
    let t = key + seq!['='] + value;
    assert forall|i: int| 0 <= i < t.len() implies !scan::is_space(#[trigger] t[i]) by {
        if i < key.len() {
            assert(t[i] == key[i]);
        } else if i > key.len() {
            assert(t[i] == value[i - key.len() - 1]);
        }
    }
    lemma_no_space(t);
    lemma_first_equals(t, key.len() as int, 0);
    assert(t.subrange(0, key.len() as int) =~= key);
    assert(t.subrange(key.len() as int + 1, t.len() as int) =~= value);
    lemma_no_space(key);
    lemma_no_space(value);
    lemma_no_char(value, '"');
    lemma_no_char(value, '\'');
    assert(t[0] == key[0]);
}

proof fn lemma_no_space(s: Seq<char>)
    requires
        forall|i: int| 0 <= i < s.len() ==> !scan::is_space(#[trigger] s[i]),
    ensures
        scan::trimmed(s) == s,
{
    if s.len() > 0 {
        assert(!scan::is_space(s[0]));
        assert(scan::skip_space(s, 0) == 0);
        assert(!scan::is_space(s[s.len() - 1]));
        assert(scan::space_end(s, 0, s.len() as int) == s.len());
    }
    assert(scan::trimmed(s) =~= s);
}

proof fn lemma_no_char(s: Seq<char>, c: char)
    requires
        forall|i: int| 0 <= i < s.len() ==> #[trigger] s[i] != c,
    ensures
        scan::stripped(s, c) == s,
{
    if s.len() > 0 {
        assert(s[0] != c);
        assert(scan::skip_char(s, c, 0) == 0);
        assert(s[s.len() - 1] != c);
        assert(scan::char_end(s, c, 0, s.len() as int) == s.len());
    }
    assert(scan::stripped(s, c) =~= s);
}

proof fn lemma_first_equals(t: Seq<char>, at: int, i: int)
    requires
        0 <= i <= at < t.len(),
        t[at] == '=',
        forall|k: int| 0 <= k < at ==> #[trigger] t[k] != '=',
    ensures
        scan::find_from(t, '=', i) == at,
    decreases at - i,
{
    if i < at {
        assert(t[i] != '=');
        lemma_first_equals(t, at, i + 1);
    }
}

/// What stands after the `~/` of a path in the home directory; `None` of any
/// other path.
pub fn home_relative(path: &str) -> (out: Option<String>)
    requires
        path@.len() > 0 && path@[0] == '~' ==> path@.len() >= 2 && text::char_width(path@[1]) == 1,
    ensures
        match out {
            Some(rest) => path@.len() >= 2 && path@[0] == '~' && rest@ == path@.skip(2),
            None => path@.len() == 0 || path@[0] != '~',
        },
{
    let cs: Vec<char> = text::chars_of(path);
    if cs.len() > 0 && cs[0] == '~' {
        let rest: String = text::string_of(&cs, 2, cs.len());
        assert(rest@ =~= path@.skip(2));
        Some(rest)
    } else {
        None
    }
}

/// The variables that tell programs which pointer to show: none where the
/// settings name no theme.
pub open spec fn pointer_vars(g: General) -> Seq<EnvVarView> {
    match g.cursor_theme {
        Some(theme) => seq![
            EnvVarView { key: "XCURSOR_THEME"@, value: theme@ },
            EnvVarView { key: "XCURSOR_SIZE"@, value: text::signed_decimal(g.cursor_size as int) },
        ],
        None => Seq::empty(),
    }
}

/// The variables that tell programs which pointer to show.
pub fn cursor_theme_vars(general: &General) -> (out: Vec<EnvVar>)
    ensures
        var_views(out@) == pointer_vars(*general),
{
    let mut out: Vec<EnvVar> = Vec::new();
    match &general.cursor_theme {
        Some(theme) => {
            let mut size: String = String::new();
            text::push_signed(&mut size, general.cursor_size as i64);
            assert(size@ =~= text::signed_decimal(general.cursor_size as int));
            out.push(EnvVar { key: "XCURSOR_THEME".to_owned(), value: text::copy_str(theme) });
            out.push(EnvVar { key: "XCURSOR_SIZE".to_owned(), value: size });
        },
        None => {},
    }
    assert(var_views(out@) =~= pointer_vars(*general));
    out
}

/// The theme whose pointer is shown.
pub fn cursor_theme_name(general: &General) -> (out: String)
    ensures
        out@ == (match general.cursor_theme {
            Some(theme) => theme@,
            None => "default"@,
        }),
{
    match &general.cursor_theme {
        Some(theme) => text::copy_str(theme),
        None => "default".to_owned(),
    }
}

/// Where the session is shown.
#[derive(Clone, Copy, Debug, PartialEq, Eq, Structural)]
pub enum Backend {
    /// In a window of another session.
    Winit,
    /// On the hardware.
    Udev,
}

/// Chooses where the session is shown: as asked for, else in a window where
/// another session is there. `None` where something unknown is asked for.
pub fn choose_backend(asked: Option<&str>, wayland: bool, x11: bool) -> (out: Option<Backend>)
    ensures
        out == (match asked {
            Some(name) => if name@ == "winit"@ {
                Some(Backend::Winit)
            } else if name@ == "udev"@ {
                Some(Backend::Udev)
            } else {
                None
            },
            None => if wayland || x11 {
                Some(Backend::Winit)
            } else {
                Some(Backend::Udev)
            },
        }),
{
    match asked {
        Some(name) => {
            if eq_str(name, "winit") {
                Some(Backend::Winit)
            } else if eq_str(name, "udev") {
                Some(Backend::Udev)
            } else {
                None
            }
        },
        None => {
            if wayland || x11 {
                Some(Backend::Winit)
            } else {
                Some(Backend::Udev)
            }
        },
    }
}

/// A file sets the variables of its lines in their order; a line more adds at
/// most one, behind the others.
pub proof fn law_lines_set_in_order(lines: Seq<Seq<char>>, n: int)
    requires
        0 <= n < lines.len(),
    ensures
        line_var(lines[n]) matches Some(v) ==> lines_vars(lines, n + 1) == lines_vars(
            lines,
            n,
        ).push(v),
        line_var(lines[n]) is None ==> lines_vars(lines, n + 1) == lines_vars(lines, n),
        lines_vars(lines, 0).len() == 0,
{
}

/// Empty lines, remarks, lines without an equals sign and lines without a key
/// set nothing; any other sets the key before its first equals sign.
pub proof fn law_which_lines_set(line: Seq<char>, key: Seq<char>, value: Seq<char>)
    ensures
        scan::trimmed(line).len() == 0 ==> line_var(line) is None,
        scan::trimmed(line).len() > 0 && scan::trimmed(line)[0] == '#' ==> line_var(line) is None,
        scan::split_at_char(scan::trimmed(line), '=') is None ==> line_var(line) is None,
        scan::trimmed(line).len() > 0 && scan::trimmed(line)[0] != '#' && scan::split_at_char(
            scan::trimmed(line),
            '=',
        ) == Some((key, value)) ==> {
            &&& scan::trimmed(key).len() == 0 ==> line_var(line) is None
            &&& scan::trimmed(key).len() > 0 ==> line_var(line) is Some && line_var(line)->0.key
                == scan::trimmed(key)
        },
{
}

/// Programs are told the theme and the size of the pointer where the settings
/// name a theme.
pub proof fn law_pointer_is_told(g: General)
    ensures
        g.cursor_theme is None ==> pointer_vars(g).len() == 0,
        g.cursor_theme is Some ==> {
            let vs = pointer_vars(g);
            &&& vs.len() == 2
            &&& vs[0].key == "XCURSOR_THEME"@ && vs[0].value == g.cursor_theme->0@
            &&& vs[1].key == "XCURSOR_SIZE"@ && vs[1].value == text::signed_decimal(
                g.cursor_size as int,
            )
        },
{
}

} // verus!
