use vstd::prelude::*;

use crate::shortcut::ResolvedShortcut;
use crate::text::{
    all_ws, chars_of, concat, ends_with, is_blank, is_whitespace, is_ws, owned, spec_lowercase, starts_with,
    str_ends_with, str_eq, str_starts_with, string_from_chars, to_lowercase,
};

verus! {

/// A launchable application, as listed in the in-game launcher.
#[derive(Clone)]
pub struct DesktopApp {
    pub app_id: String,
    pub name: Option<String>,
    pub generic_name: Option<String>,
    /// Full executable path of the shortcut target.
    pub exec_path: Option<String>,
    /// Command-line arguments stored on the shortcut; `None` when it has none.
    pub exec_args: Option<String>,
    /// Working directory the shortcut wants the target launched in.
    pub working_dir: Option<String>,
    pub exec_terminal: bool,
    pub comment: Option<String>,
    pub keywords: Vec<String>,
    pub categories: Vec<String>,
    pub visible: bool,
    pub icon_path: Option<String>,
}

/// The launcher entry handed to the Java side.
pub struct RawDesktopEntry {
    pub app_id: String,
    pub name: Option<String>,
    pub generic_name: Option<String>,
    pub exec_path: Option<String>,
    pub exec_terminal: bool,
    pub comment: Option<String>,
    pub keywords: Vec<String>,
    pub categories: Vec<String>,
    pub visible: bool,
    pub icon_path: Option<String>,
}

pub open spec fn opt_view(o: Option<String>) -> Option<Seq<char>> {
    match o {
        Some(s) => Some(s@),
        None => None,
    }
}

pub open spec fn strings_view(v: Seq<String>) -> Seq<Seq<char>> {
    v.map_values(|s: String| s@)
}

pub fn clone_opt(o: &Option<String>) -> (r: Option<String>)
    ensures
        r == *o,
{
    match o {
        Some(s) => Some(s.clone()),
        None => None,
    }
}

pub fn clone_strings(v: &Vec<String>) -> (r: Vec<String>)
    ensures
        r@ == v@,
{
    let mut r: Vec<String> = Vec::new();
    let mut i: usize = 0;
    while i < v.len()
        invariant
            i <= v.len(),
            r@ == v@.take(i as int),
        decreases v.len() - i,
    {
        r.push(v[i].clone());
        assert(v@.take(i as int).push(v@[i as int]) =~= v@.take(i + 1));
        i += 1;
    }
    assert(v@.take(v.len() as int) =~= v@);
    r
}

/// The index of the first app whose id is `app_id`, if any.
pub open spec fn first_app_with_id(apps: Seq<DesktopApp>, app_id: Seq<char>) -> Option<int> {
    if exists|i: int| 0 <= i < apps.len() && apps[i].app_id@ == app_id {
        Some(choose|i: int| 0 <= i < apps.len() && apps[i].app_id@ == app_id
            && forall|j: int| 0 <= j < i ==> apps[j].app_id@ != app_id)
    } else {
        None
    }
}

/// The first app in `apps` whose `app_id` equals `app_id`.
pub fn find_app<'a>(apps: &'a [DesktopApp], app_id: &str) -> (r: Option<&'a DesktopApp>)
    ensures
        match r {
            None => forall|i: int| 0 <= i < apps@.len() ==> apps@[i].app_id@ != app_id@,
            Some(a) => exists|i: int|
                0 <= i < apps@.len() && apps@[i] == *a && a.app_id@ == app_id@ && forall|j: int|
                    0 <= j < i ==> apps@[j].app_id@ != app_id@,
        },
{
    let mut i: usize = 0;
    while i < apps.len()
        invariant
            i <= apps@.len(),
            forall|j: int| 0 <= j < i ==> apps@[j].app_id@ != app_id@,
        decreases apps.len() - i,
    {
        if str_eq(apps[i].app_id.as_str(), app_id) {
            return Some(&apps[i]);
        }
        i += 1;
    }
    None
}

/// The launcher entry for `entry`: every field but the arguments and working
/// directory, copied.
pub fn to_raw(entry: &DesktopApp) -> (r: RawDesktopEntry)
    ensures
        r.app_id == entry.app_id,
        r.name == entry.name,
        r.generic_name == entry.generic_name,
        r.exec_path == entry.exec_path,
        r.exec_terminal == entry.exec_terminal,
        r.comment == entry.comment,
        r.keywords@ == entry.keywords@,
        r.categories@ == entry.categories@,
        r.visible == entry.visible,
        r.icon_path == entry.icon_path,
{
    RawDesktopEntry {
        app_id: entry.app_id.clone(),
        name: clone_opt(&entry.name),
        generic_name: clone_opt(&entry.generic_name),
        exec_path: clone_opt(&entry.exec_path),
        exec_terminal: entry.exec_terminal,
        comment: clone_opt(&entry.comment),
        keywords: clone_strings(&entry.keywords),
        categories: clone_strings(&entry.categories),
        visible: entry.visible,
        icon_path: clone_opt(&entry.icon_path),
    }
}

/// What `make_builtin_with_args` builds.
pub open spec fn is_builtin_app(
    a: DesktopApp,
    id: Seq<char>,
    name: Seq<char>,
    exec_path: Seq<char>,
    exec_args: Option<Seq<char>>,
    category: Seq<char>,
) -> bool {
    &&& a.app_id@ == id
    &&& opt_view(a.name) == Some(name)
    &&& a.generic_name is None
    &&& opt_view(a.exec_path) == Some(exec_path)
    &&& opt_view(a.exec_args) == exec_args
    &&& a.working_dir is None
    &&& !a.exec_terminal
    &&& a.comment is None
    &&& strings_view(a.keywords@) == seq![spec_lowercase(name)]
    &&& strings_view(a.categories@) == seq![category]
    &&& a.visible
    &&& a.icon_path is None
}

pub fn make_builtin_with_args(
    id: &str,
    name: &str,
    exec_path: String,
    exec_args: Option<String>,
    category: &str,
) -> (a: DesktopApp)
    ensures
        is_builtin_app(a, id@, name@, exec_path@, opt_view(exec_args), category@),
{
    let mut keywords: Vec<String> = Vec::new();
    keywords.push(to_lowercase(name));
    let mut categories: Vec<String> = Vec::new();
    categories.push(owned(category));
    let a = DesktopApp {
        app_id: owned(id),
        name: Some(owned(name)),
        generic_name: None,
        exec_path: Some(exec_path),
        exec_args,
        working_dir: None,
        exec_terminal: false,
        comment: None,
        keywords,
        categories,
        visible: true,
        icon_path: None,
    };
    assert(strings_view(a.keywords@) =~= seq![spec_lowercase(name@)]);
    assert(strings_view(a.categories@) =~= seq![category@]);
    a
}

pub fn make_builtin(id: &str, name: &str, exec_path: String, category: &str) -> (a: DesktopApp)
    ensures
        is_builtin_app(a, id@, name@, exec_path@, None, category@),
{
    make_builtin_with_args(id, name, exec_path, None, category)
}

/// The apps that are always offered, their executables under the Windows
/// directory `windir` (the `WINDIR` environment variable, `C:\Windows` when
/// unset).
pub fn builtin_apps(windir: &str) -> (apps: Vec<DesktopApp>)
    ensures
        apps@.len() == 5,
        is_builtin_app(apps@[0], "notepad"@, "Notepad"@, windir@ + "\\System32\\notepad.exe"@, None, "Utility"@),
        is_builtin_app(apps@[1], "calc"@, "Calculator"@, windir@ + "\\System32\\calc.exe"@, None, "Utility"@),
        is_builtin_app(apps@[2], "cmd"@, "Command Prompt"@, windir@ + "\\System32\\cmd.exe"@, None, "System"@),
        is_builtin_app(apps@[3], "mspaint"@, "Paint"@, windir@ + "\\System32\\mspaint.exe"@, None, "Graphics"@),
        is_builtin_app(
            apps@[4],
            "explorer"@,
            "File Explorer"@,
            windir@ + "\\explorer.exe"@,
            Some("/separate,::{20D04FE0-3AEA-1069-A2D8-08002B30309D}"@),
            "System"@,
        ),
{
    let mut apps: Vec<DesktopApp> = Vec::new();
    apps.push(make_builtin("notepad", "Notepad", concat(windir, "\\System32\\notepad.exe"), "Utility"));
    apps.push(make_builtin("calc", "Calculator", concat(windir, "\\System32\\calc.exe"), "Utility"));
    apps.push(make_builtin("cmd", "Command Prompt", concat(windir, "\\System32\\cmd.exe"), "System"));
    apps.push(make_builtin("mspaint", "Paint", concat(windir, "\\System32\\mspaint.exe"), "Graphics"));
    apps.push(
        make_builtin_with_args(
            "explorer",
            "File Explorer",
            concat(windir, "\\explorer.exe"),
            Some(owned("/separate,::{20D04FE0-3AEA-1069-A2D8-08002B30309D}")),
            "System",
        ),
    );
    apps
}

/// The whitespace-separated words of `s`, as `split_whitespace` yields them.
pub open spec fn words_fold(s: Seq<char>) -> (Seq<Seq<char>>, Seq<char>)
    decreases s.len(),
{
    if s.len() == 0 {
        (Seq::empty(), Seq::empty())
    } else {
        let (out, cur) = words_fold(s.drop_last());
        if is_ws(s.last()) {
            if cur.len() > 0 {
                (out.push(cur), Seq::empty())
            } else {
                (out, cur)
            }
        } else {
            (out, cur.push(s.last()))
        }
    }
}

pub open spec fn words(s: Seq<char>) -> Seq<Seq<char>> {
    let (out, cur) = words_fold(s);
    if cur.len() > 0 {
        out.push(cur)
    } else {
        out
    }
}

fn split_words(s: &str) -> (r: Vec<Vec<char>>)
    ensures
        r@.map_values(|w: Vec<char>| w@) == words(s@),
{
    let cs = chars_of(s);
    let mut out: Vec<Vec<char>> = Vec::new();
    let mut cur: Vec<char> = Vec::new();
    let mut i: usize = 0;
    while i < cs.len()
        invariant
            i <= cs@.len(),
            cs@ == s@,
            words_fold(cs@.take(i as int)) == (out@.map_values(|w: Vec<char>| w@), cur@),
        decreases cs.len() - i,
    {
        let c = cs[i];
        proof {
            assert(cs@.take(i + 1).drop_last() =~= cs@.take(i as int));
            assert(cs@.take(i + 1).last() == c);
        }
        if is_whitespace(c) {
            if cur.len() > 0 {
                let ghost before = out@;
                let mut done: Vec<char> = Vec::new();
                std::mem::swap(&mut done, &mut cur);
                let ghost d = done@;
                out.push(done);
                proof {
                    assert(out@.map_values(|w: Vec<char>| w@) =~= before.map_values(|w: Vec<char>| w@).push(d));
                }
            }
        } else {
            cur.push(c);
        }
        i += 1;
    }
    assert(cs@.take(cs@.len() as int) =~= cs@);
    if cur.len() > 0 {
        let ghost before = out@;
        let ghost d = cur@;
        out.push(cur);
        proof {
            assert(out@.map_values(|w: Vec<char>| w@) =~= before.map_values(|w: Vec<char>| w@).push(d));
        }
    }
    out
}

/// `s` without its leading double quotes.
pub open spec fn trim_quotes_start(s: Seq<char>) -> Seq<char>
    decreases s.len(),
{
    if s.len() > 0 && s[0] == '"' {
        trim_quotes_start(s.drop_first())
    } else {
        s
    }
}

/// `s` without its trailing double quotes.
pub open spec fn trim_quotes_end(s: Seq<char>) -> Seq<char>
    decreases s.len(),
{
    if s.len() > 0 && s.last() == '"' {
        trim_quotes_end(s.drop_last())
    } else {
        s
    }
}

/// `s` without its leading and trailing double quotes.
pub open spec fn trim_quotes(s: Seq<char>) -> Seq<char> {
    trim_quotes_end(trim_quotes_start(s))
}

fn trim_quotes_exec(s: &Vec<char>, from: usize) -> (r: Vec<char>)
    requires
        from <= s@.len(),
    ensures
        r@ == trim_quotes(s@.skip(from as int)),
{
    let mut a: usize = from;
    while a < s.len() && s[a] == '"'
        invariant
            from <= a <= s@.len(),
            trim_quotes_start(s@.skip(from as int)) == trim_quotes_start(s@.skip(a as int)),
        decreases s.len() - a,
    {
        assert(s@.skip(a as int).drop_first() =~= s@.skip(a + 1));
        a += 1;
    }
    let mut b: usize = s.len();
    assert(s@.skip(a as int).take((b - a) as int) =~= s@.skip(a as int));
    while b > a && s[b - 1] == '"'
        invariant
            a <= b <= s@.len(),
            trim_quotes_end(s@.skip(a as int)) == trim_quotes_end(s@.subrange(a as int, b as int)),
        decreases b - a,
    {
        assert(s@.subrange(a as int, b as int).drop_last() =~= s@.subrange(a as int, b - 1));
        b -= 1;
    }
    proof {
        if a < s@.len() {
            assert(s@.skip(a as int)[0] == s@[a as int]);
        }
        assert(s@.skip(a as int).len() == 0 || s@.skip(a as int)[0] != '"');
        assert(trim_quotes_start(s@.skip(a as int)) == s@.skip(a as int));
        if b > a {
            assert(s@.subrange(a as int, b as int).last() == s@[b - 1]);
        }
    }
    let mut r: Vec<char> = Vec::new();
    let mut k: usize = a;
    while k < b
        invariant
            a <= k <= b,
            b <= s@.len(),
            r@ == s@.subrange(a as int, k as int),
        decreases b - k,
    {
        r.push(s[k]);
        assert(s@.subrange(a as int, k as int).push(s@[k as int]) =~= s@.subrange(a as int, k + 1));
        k += 1;
    }
    r
}

/// The executable a Squirrel `Update.exe` shortcut starts, from its
/// arguments: the name after `--processStart=`, or the word after
/// `--processStart` or `--processStartAndWait`, quotes trimmed, the first
/// non-empty one.
pub open spec fn squirrel_from(t: Seq<Seq<char>>, i: int) -> Option<Seq<char>>
    decreases t.len() - i,
{
    if i < 0 || i >= t.len() {
        None
    } else if starts_with(t[i], "--processStart="@) && trim_quotes(t[i].skip("--processStart="@.len() as int)).len() > 0 {
        Some(trim_quotes(t[i].skip("--processStart="@.len() as int)))
    } else if (t[i] == "--processStart"@ || t[i] == "--processStartAndWait"@) && i + 1 < t.len() && trim_quotes(
        t[i + 1],
    ).len() > 0 {
        Some(trim_quotes(t[i + 1]))
    } else {
        squirrel_from(t, i + 1)
    }
}

fn chars_eq(a: &Vec<char>, b: &Vec<char>) -> (r: bool)
    ensures
        r == (a@ == b@),
{
    if a.len() != b.len() {
        return false;
    }
    let mut i: usize = 0;
    while i < a.len()
        invariant
            i <= a@.len(),
            a@.len() == b@.len(),
            forall|j: int| 0 <= j < i ==> a@[j] == b@[j],
        decreases a.len() - i,
    {
        if a[i] != b[i] {
            return false;
        }
        i += 1;
    }
    assert(a@ =~= b@);
    true
}

fn chars_start_with(a: &Vec<char>, p: &Vec<char>) -> (r: bool)
    ensures
        r == starts_with(a@, p@),
{
    if p.len() > a.len() {
        return false;
    }
    let mut i: usize = 0;
    while i < p.len()
        invariant
            i <= p@.len(),
            p@.len() <= a@.len(),
            forall|j: int| 0 <= j < i ==> a@[j] == p@[j],
        decreases p.len() - i,
    {
        if a[i] != p[i] {
            assert(a@.take(p@.len() as int)[i as int] != p@[i as int]);
            return false;
        }
        i += 1;
    }
    assert(a@.take(p@.len() as int) =~= p@);
    true
}

/// The executable a Squirrel `Update.exe` shortcut with arguments
/// `arguments` starts (see `squirrel_from`).
pub fn squirrel_process_start(arguments: &str) -> (r: Option<String>)
    ensures
        match r {
            Some(n) => squirrel_from(words(arguments@), 0) == Some(n@),
            None => squirrel_from(words(arguments@), 0) is None,
        },
{
    let tokens = split_words(arguments);
    let ghost t = tokens@.map_values(|w: Vec<char>| w@);
    let eq_prefix = chars_of("--processStart=");
    let flag = chars_of("--processStart");
    let flag_wait = chars_of("--processStartAndWait");
    let mut i: usize = 0;
    while i < tokens.len()
        invariant
            i <= tokens@.len(),
            t == tokens@.map_values(|w: Vec<char>| w@),
            t == words(arguments@),
            eq_prefix@ == "--processStart="@,
            flag@ == "--processStart"@,
            flag_wait@ == "--processStartAndWait"@,
            squirrel_from(t, 0) == squirrel_from(t, i as int),
        decreases tokens.len() - i,
    {
        let tok = &tokens[i];
        assert(t[i as int] == tok@);
        if chars_start_with(tok, &eq_prefix) {
            let name = trim_quotes_exec(tok, eq_prefix.len());
            if name.len() > 0 {
                return Some(string_from_chars(&name));
            }
        }
        if chars_eq(tok, &flag) || chars_eq(tok, &flag_wait) {
            if i + 1 < tokens.len() {
                assert(t[i + 1] == tokens@[i + 1]@);
                let name = trim_quotes_exec(&tokens[i + 1], 0);
                assert(tokens@[i + 1]@.skip(0) =~= tokens@[i + 1]@);
                if name.len() > 0 {
                    return Some(string_from_chars(&name));
                }
            }
        }
        i += 1;
    }
    None
}

/// Whether a shortcut target is a Squirrel `Update.exe` launcher.
pub fn is_squirrel_update(target: &str) -> (r: bool)
    ensures
        r == ends_with(spec_lowercase(target@), "update.exe"@),
{
    let lower = to_lowercase(target);
    str_ends_with(lower.as_str(), "update.exe")
}

/// Whether `a` comes before `b` in the order of `str`'s comparison: by code
/// point, a proper prefix first.
pub open spec fn str_less(a: Seq<char>, b: Seq<char>) -> bool
    decreases a.len(),
{
    if a.len() == 0 {
        b.len() > 0
    } else if b.len() == 0 {
        false
    } else if a[0] != b[0] {
        a[0] < b[0]
    } else {
        str_less(a.drop_first(), b.drop_first())
    }
}

pub proof fn lemma_str_less_irreflexive(a: Seq<char>)
    ensures
        !str_less(a, a),
    decreases a.len(),
{
    if a.len() > 0 {
        lemma_str_less_irreflexive(a.drop_first());
    }
}

pub proof fn lemma_str_less_asym(a: Seq<char>, b: Seq<char>)
    ensures
        !(str_less(a, b) && str_less(b, a)),
    decreases a.len(),
{
    if a.len() > 0 && b.len() > 0 && a[0] == b[0] {
        lemma_str_less_asym(a.drop_first(), b.drop_first());
    }
}

pub proof fn lemma_str_less_trans(a: Seq<char>, b: Seq<char>, c: Seq<char>)
    requires
        str_less(a, b),
        str_less(b, c),
    ensures
        str_less(a, c),
    decreases a.len(),
{
    if a.len() > 0 && b.len() > 0 && c.len() > 0 && a[0] == b[0] && b[0] == c[0] {
        lemma_str_less_trans(a.drop_first(), b.drop_first(), c.drop_first());
    }
}

pub proof fn lemma_str_less_total(a: Seq<char>, b: Seq<char>)
    ensures
        str_less(a, b) || str_less(b, a) || a == b,
    decreases a.len(),
{
    if a.len() == 0 {
        if b.len() == 0 {
            assert(a =~= b);
        }
    } else if b.len() > 0 {
        if a[0] == b[0] {
            lemma_str_less_total(a.drop_first(), b.drop_first());
            if a.drop_first() == b.drop_first() {
                assert(a =~= seq![a[0]] + a.drop_first());
                assert(b =~= seq![b[0]] + b.drop_first());
            }
        }
    }
}

fn chars_less(a: &Vec<char>, b: &Vec<char>) -> (r: bool)
    ensures
        r == str_less(a@, b@),
{
    let mut i: usize = 0;
    assert(a@.skip(0) =~= a@ && b@.skip(0) =~= b@);
    while i < a.len() && i < b.len() && a[i] == b[i]
        invariant
            i <= a@.len(),
            i <= b@.len(),
            str_less(a@, b@) == str_less(a@.skip(i as int), b@.skip(i as int)),
        decreases a.len() - i,
    {
        assert(a@.skip(i as int).drop_first() =~= a@.skip(i + 1));
        assert(b@.skip(i as int).drop_first() =~= b@.skip(i + 1));
        i += 1;
    }
    proof {
        if i < a@.len() {
            assert(a@.skip(i as int)[0] == a@[i as int]);
        }
        if i < b@.len() {
            assert(b@.skip(i as int)[0] == b@[i as int]);
        }
    }
    if i == a.len() {
        i < b.len()
    } else if i == b.len() {
        false
    } else {
        a[i] < b[i]
    }
}

/// Whether entry `e` of a Squirrel install directory (its name, and whether
/// it holds the app's executable) is a version directory to launch from.
pub open spec fn is_version_dir(e: (String, bool)) -> bool {
    starts_with(spec_lowercase(e.0@), "app-"@) && e.1
}

/// The version directory to launch from among `entries`: the one whose name
/// sorts last, the first of them on a tie; `None` when there is none.
pub fn newest_squirrel_app_exe(entries: &Vec<(String, bool)>) -> (r: Option<usize>)
    ensures
        match r {
            Some(k) => {
                &&& k < entries@.len()
                &&& is_version_dir(entries@[k as int])
                &&& forall|j: int|
                    0 <= j < entries@.len() && is_version_dir(#[trigger] entries@[j]) ==> !str_less(
                        entries@[k as int].0@,
                        entries@[j].0@,
                    )
                &&& forall|j: int|
                    0 <= j < k && is_version_dir(#[trigger] entries@[j]) ==> str_less(entries@[j].0@, entries@[k as int].0@)
            },
            None => forall|j: int| 0 <= j < entries@.len() ==> !is_version_dir(#[trigger] entries@[j]),
        },
{
    let mut best: Option<usize> = None;
    let mut best_name: Vec<char> = Vec::new();
    let mut i: usize = 0;
    while i < entries.len()
        invariant
            i <= entries@.len(),
            match best {
                Some(k) => {
                    &&& k < i
                    &&& is_version_dir(entries@[k as int])
                    &&& best_name@ == entries@[k as int].0@
                    &&& forall|j: int|
                        0 <= j < i && is_version_dir(#[trigger] entries@[j]) ==> !str_less(
                            entries@[k as int].0@,
                            entries@[j].0@,
                        )
                    &&& forall|j: int|
                        0 <= j < k && is_version_dir(#[trigger] entries@[j]) ==> str_less(
                            entries@[j].0@,
                            entries@[k as int].0@,
                        )
                },
                None => forall|j: int| 0 <= j < i ==> !is_version_dir(#[trigger] entries@[j]),
            },
        decreases entries.len() - i,
    {
        let lower = to_lowercase(entries[i].0.as_str());
        if str_starts_with(lower.as_str(), "app-") && entries[i].1 {
            let name = chars_of(entries[i].0.as_str());
            let replace = match best {
                None => true,
                Some(_) => chars_less(&best_name, &name),
            };
            if replace {
                proof {
                    if let Some(k) = best {
                        assert forall|j: int|
                            0 <= j < i + 1 && is_version_dir(#[trigger] entries@[j]) implies !str_less(
                            entries@[i as int].0@,
                            entries@[j].0@,
                        ) by {
                            if j < i {
                                lemma_str_less_total(entries@[k as int].0@, entries@[j].0@);
                                if str_less(entries@[i as int].0@, entries@[j].0@) {
                                    if str_less(entries@[j].0@, entries@[k as int].0@) {
                                        lemma_str_less_trans(entries@[i as int].0@, entries@[j].0@, entries@[k as int].0@);
                                        lemma_str_less_asym(entries@[i as int].0@, entries@[k as int].0@);
                                    } else {
                                        lemma_str_less_asym(entries@[i as int].0@, entries@[k as int].0@);
                                    }
                                }
                            } else {
                                lemma_str_less_irreflexive(entries@[i as int].0@);
                            }
                        }
                        assert forall|j: int| 0 <= j < i && is_version_dir(#[trigger] entries@[j]) implies str_less(
                            entries@[j].0@,
                            entries@[i as int].0@,
                        ) by {
                            lemma_str_less_total(entries@[k as int].0@, entries@[j].0@);
                            if !str_less(entries@[k as int].0@, entries@[j].0@) {
                                if str_less(entries@[j].0@, entries@[k as int].0@) {
                                    lemma_str_less_trans(entries@[j].0@, entries@[k as int].0@, entries@[i as int].0@);
                                }
                            }
                        }
                    } else {
                        lemma_str_less_irreflexive(entries@[i as int].0@);
                    }
                }
                best = Some(i);
                best_name = name;
            } else {
                proof {
                    let k = best->0;
                    assert(!str_less(entries@[k as int].0@, entries@[i as int].0@));
                }
            }
        }
        i += 1;
    }
    best
}

/// The launcher entry for shortcut file `stem` (its name without extension)
/// at path `display`, resolved to `target` with `arguments`, `working_dir`
/// and an icon that exists (`icon`): the id is the stem, a dash and the
/// path; blank arguments or directory are absent.
pub open spec fn is_shortcut_app(
    a: DesktopApp,
    stem: Seq<char>,
    display: Seq<char>,
    target: Seq<char>,
    arguments: Seq<char>,
    working_dir: Seq<char>,
    icon: Option<Seq<char>>,
) -> bool {
    &&& a.app_id@ == stem + "-"@ + display
    &&& opt_view(a.name) == Some(stem)
    &&& a.generic_name is None
    &&& opt_view(a.exec_path) == Some(target)
    &&& opt_view(a.exec_args) == (if all_ws(arguments) { None } else { Some(arguments) })
    &&& opt_view(a.working_dir) == (if all_ws(working_dir) { None } else { Some(working_dir) })
    &&& !a.exec_terminal
    &&& a.comment is None
    &&& strings_view(a.keywords@) == seq![spec_lowercase(stem)]
    &&& strings_view(a.categories@) == seq!["Other"@]
    &&& a.visible
    &&& opt_view(a.icon_path) == icon
}

/// The launcher entry of a shortcut (see `is_shortcut_app`); `None` when
/// the shortcut has no target.
pub fn app_from_shortcut(
    stem: &str,
    display: &str,
    target: String,
    arguments: String,
    working_dir: String,
    icon: Option<String>,
) -> (r: Option<DesktopApp>)
    ensures
        r is Some <==> target@.len() > 0,
        r matches Some(a) ==> is_shortcut_app(a, stem@, display@, target@, arguments@, working_dir@, opt_view(icon)),
{
    if target.as_str().is_empty() {
        return None;
    }
    let head = concat(stem, "-");
    let app_id = concat(head.as_str(), display);
    let exec_args = if is_blank(arguments.as_str()) {
        None
    } else {
        Some(arguments)
    };
    let working = if is_blank(working_dir.as_str()) {
        None
    } else {
        Some(working_dir)
    };
    let mut keywords: Vec<String> = Vec::new();
    keywords.push(to_lowercase(stem));
    let mut categories: Vec<String> = Vec::new();
    categories.push(owned("Other"));
    let a = DesktopApp {
        app_id,
        name: Some(owned(stem)),
        generic_name: None,
        exec_path: Some(target),
        exec_args,
        working_dir: working,
        exec_terminal: false,
        comment: None,
        keywords,
        categories,
        visible: true,
        icon_path: icon,
    };
    assert(strings_view(a.keywords@) =~= seq![spec_lowercase(stem@)]);
    assert(strings_view(a.categories@) =~= seq!["Other"@]);
    Some(a)
}

/// What the launcher sorts apps by: the lowercased name, or the id of an
/// app without a name.
pub open spec fn sort_key(a: DesktopApp) -> Seq<char> {
    spec_lowercase(
        match a.name {
            Some(n) => n@,
            None => a.app_id@,
        },
    )
}

/// `s` without the apps whose id an earlier app has.
pub open spec fn dedup_apps(s: Seq<DesktopApp>) -> Seq<DesktopApp>
    decreases s.len(),
{
    if s.len() == 0 {
        s
    } else {
        let d = dedup_apps(s.drop_last());
        if exists|i: int| 0 <= i < d.len() && #[trigger] d[i].app_id@ == s.last().app_id@ {
            d
        } else {
            d.push(s.last())
        }
    }
}

/// Where `x` goes in the sorted `l`: before the first app with a greater key.
pub open spec fn insert_pos(l: Seq<DesktopApp>, x: DesktopApp) -> int
    decreases l.len(),
{
    if l.len() == 0 {
        0
    } else if str_less(sort_key(x), sort_key(l[0])) {
        0
    } else {
        1 + insert_pos(l.drop_first(), x)
    }
}

/// The apps of `s` in order of `sort_key`, apps with equal keys in their
/// order in `s` (a stable sort).
pub open spec fn sorted_apps(s: Seq<DesktopApp>) -> Seq<DesktopApp>
    decreases s.len(),
{
    if s.len() == 0 {
        s
    } else {
        let l = sorted_apps(s.drop_last());
        l.insert(insert_pos(l, s.last()), s.last())
    }
}

/// Whether the keys of `l` never decrease.
pub open spec fn keys_sorted(l: Seq<DesktopApp>) -> bool {
    forall|i: int, j: int| 0 <= i < j < l.len() ==> !str_less(#[trigger] sort_key(l[j]), #[trigger] sort_key(l[i]))
}

proof fn lemma_insert_pos(l: Seq<DesktopApp>, x: DesktopApp, p: int)
    requires
        0 <= p <= l.len(),
        forall|j: int| 0 <= j < p ==> !str_less(sort_key(x), #[trigger] sort_key(l[j])),
        p == l.len() || str_less(sort_key(x), sort_key(l[p])),
    ensures
        insert_pos(l, x) == p,
    decreases p,
{
    if p > 0 {
        assert(!str_less(sort_key(x), sort_key(l[0])));
        assert forall|j: int| 0 <= j < p - 1 implies !str_less(sort_key(x), #[trigger] sort_key(l.drop_first()[j])) by {
            assert(l.drop_first()[j] == l[j + 1]);
        }
        if p < l.len() {
            assert(l.drop_first()[p - 1] == l[p]);
        }
        lemma_insert_pos(l.drop_first(), x, p - 1);
    }
}

proof fn lemma_insert_sorted(l: Seq<DesktopApp>, x: DesktopApp, p: int)
    requires
        keys_sorted(l),
        0 <= p <= l.len(),
        forall|j: int| 0 <= j < p ==> !str_less(sort_key(x), #[trigger] sort_key(l[j])),
        p == l.len() || str_less(sort_key(x), sort_key(l[p])),
    ensures
        keys_sorted(l.insert(p, x)),
{
    let n = l.insert(p, x);
    assert forall|i: int, j: int| 0 <= i < j < n.len() implies !str_less(#[trigger] sort_key(n[j]), #[trigger] sort_key(n[i])) by {
        if j < p {
            assert(n[i] == l[i] && n[j] == l[j]);
        } else if j == p {
            assert(n[i] == l[i]);
        } else if i == p {
            assert(n[j] == l[j - 1]);
            let kx = sort_key(x);
            let kp = sort_key(l[p]);
            let kj = sort_key(l[j - 1]);
            if j - 1 > p {
                assert(!str_less(kj, kp));
            }
            lemma_str_less_total(kp, kj);
            if str_less(kp, kj) {
                lemma_str_less_trans(kx, kp, kj);
            }
            lemma_str_less_asym(kx, kj);
        } else if i < p {
            assert(n[i] == l[i] && n[j] == l[j - 1]);
        } else {
            assert(n[i] == l[i - 1] && n[j] == l[j - 1]);
        }
    }
}

/// A stable sort keeps every app and leaves the keys in order.
pub proof fn lemma_sorted_apps(s: Seq<DesktopApp>)
    ensures
        keys_sorted(sorted_apps(s)),
        sorted_apps(s).to_multiset() == s.to_multiset(),
    decreases s.len(),
{
    if s.len() > 0 {
        let l = sorted_apps(s.drop_last());
        lemma_sorted_apps(s.drop_last());
        let x = s.last();
        let p = insert_pos(l, x);
        lemma_insert_pos_props(l, x);
        lemma_insert_sorted(l, x, p);
        vstd::seq_lib::lemma_multiset_commutative(s.drop_last(), seq![x]);
        assert(s =~= s.drop_last() + seq![x]);
        assert(l.insert(p, x) =~= l.take(p) + seq![x] + l.skip(p));
        assert(l =~= l.take(p) + l.skip(p));
        vstd::seq_lib::lemma_multiset_commutative(l.take(p), l.skip(p));
        vstd::seq_lib::lemma_multiset_commutative(l.take(p) + seq![x], l.skip(p));
        vstd::seq_lib::lemma_multiset_commutative(l.take(p), seq![x]);
    }
}

/// No two apps of `s` share an id.
pub open spec fn ids_unique(s: Seq<DesktopApp>) -> bool {
    forall|i: int, j: int| 0 <= i < j < s.len() ==> #[trigger] s[i].app_id@ != #[trigger] s[j].app_id@
}

proof fn lemma_dedup_unique(s: Seq<DesktopApp>)
    ensures
        ids_unique(dedup_apps(s)),
    decreases s.len(),
{
    if s.len() > 0 {
        lemma_dedup_unique(s.drop_last());
        let d = dedup_apps(s.drop_last());
        if !(exists|i: int| 0 <= i < d.len() && #[trigger] d[i].app_id@ == s.last().app_id@) {
            let n = d.push(s.last());
            assert forall|i: int, j: int| 0 <= i < j < n.len() implies #[trigger] n[i].app_id@
                != #[trigger] n[j].app_id@ by {
                assert(n[i] == d[i]);
                if j < d.len() {
                    assert(n[j] == d[j]);
                }
            }
        }
    }
}

proof fn lemma_sorted_unique(s: Seq<DesktopApp>)
    requires
        ids_unique(s),
    ensures
        ids_unique(sorted_apps(s)),
    decreases s.len(),
{
    if s.len() > 0 {
        let t = s.drop_last();
        assert forall|i: int, j: int| 0 <= i < j < t.len() implies #[trigger] t[i].app_id@ != #[trigger] t[j].app_id@ by {
            assert(t[i] == s[i] && t[j] == s[j]);
        }
        lemma_sorted_unique(t);
        lemma_sorted_apps(t);
        let l = sorted_apps(t);
        let x = s.last();
        let p = insert_pos(l, x);
        lemma_insert_pos_props(l, x);
        l.to_multiset_ensures();
        t.to_multiset_ensures();
        assert forall|k: int| 0 <= k < l.len() implies #[trigger] l[k].app_id@ != x.app_id@ by {
            assert(l.contains(l[k]));
            assert(l.to_multiset().count(l[k]) > 0);
            assert(t.to_multiset().count(l[k]) > 0);
            assert(t.contains(l[k]));
            let m = choose|m: int| 0 <= m < t.len() && t[m] == l[k];
            assert(s[m] == t[m]);
            assert(s[s.len() - 1] == x);
        }
        let n = l.insert(p, x);
        assert forall|i: int, j: int| 0 <= i < j < n.len() implies #[trigger] n[i].app_id@
            != #[trigger] n[j].app_id@ by {
            if i < p {
                assert(n[i] == l[i]);
                if j < p {
                    assert(n[j] == l[j]);
                } else if j > p {
                    assert(n[j] == l[j - 1]);
                }
            } else if i == p {
                assert(n[i] == x && n[j] == l[j - 1]);
            } else {
                assert(n[i] == l[i - 1] && n[j] == l[j - 1]);
            }
        }
    }
}

/// The launcher lists each app id once, whatever the start menu holds.
pub proof fn law_launcher_ids_unique(found: Seq<DesktopApp>, builtins: Seq<DesktopApp>)
    ensures
        ids_unique(sorted_apps(dedup_apps(found + builtins))),
{
    lemma_dedup_unique(found + builtins);
    lemma_sorted_unique(dedup_apps(found + builtins));
}

proof fn lemma_insert_pos_props(l: Seq<DesktopApp>, x: DesktopApp)
    ensures
        0 <= insert_pos(l, x) <= l.len(),
        forall|j: int| 0 <= j < insert_pos(l, x) ==> !str_less(sort_key(x), #[trigger] sort_key(l[j])),
        insert_pos(l, x) == l.len() || str_less(sort_key(x), sort_key(l[insert_pos(l, x)])),
    decreases l.len(),
{
    if l.len() > 0 && !str_less(sort_key(x), sort_key(l[0])) {
        lemma_insert_pos_props(l.drop_first(), x);
        assert forall|j: int| 0 <= j < insert_pos(l, x) implies !str_less(sort_key(x), #[trigger] sort_key(l[j])) by {
            if j > 0 {
                assert(l[j] == l.drop_first()[j - 1]);
            }
        }
        if insert_pos(l, x) < l.len() {
            assert(l[insert_pos(l, x)] == l.drop_first()[insert_pos(l, x) - 1]);
        }
    }
}

fn key_of(a: &DesktopApp) -> (k: Vec<char>)
    ensures
        k@ == sort_key(*a),
{
    let lower = match &a.name {
        Some(n) => to_lowercase(n.as_str()),
        None => to_lowercase(a.app_id.as_str()),
    };
    chars_of(lower.as_str())
}

/// The launcher's app list from the apps of the start menu (`found`) and the
/// built-in ones: each id once (the first app with it kept), sorted by
/// `sort_key`, stably.
pub fn collect_apps(found: Vec<DesktopApp>, builtins: Vec<DesktopApp>) -> (r: Vec<DesktopApp>)
    ensures
        r@ == sorted_apps(dedup_apps(found@ + builtins@)),
{
    let ghost all = found@ + builtins@;
    let mut unique: Vec<DesktopApp> = Vec::new();
    let mut ids: Vec<Vec<char>> = Vec::new();
    let ghost n0 = found@.len();
    let mut sources: Vec<Vec<DesktopApp>> = Vec::new();
    sources.push(found);
    sources.push(builtins);
    let ghost srcs = sources@;
    let ghost mut taken: int = 0;
    for batch in it: sources
        invariant
            it.seq() == srcs,
            srcs.len() == 2,
            srcs[0]@ + srcs[1]@ == all,
            taken == (if it.index() == 0 { 0 } else if it.index() == 1 { srcs[0]@.len() as int } else { all.len() as int }),
            unique@ == dedup_apps(all.take(taken)),
            ids@.len() == unique@.len(),
            forall|i: int| 0 <= i < ids@.len() ==> #[trigger] ids@[i]@ == unique@[i].app_id@,
    {
        let ghost b = batch@;
        let ghost start: int = taken;
        proof {
            if it.index() == 0 {
                assert(b == srcs[0]@);
            } else {
                assert(b == srcs[1]@);
            }
            assert(all.subrange(start, start + b.len()) =~= b);
        }
        for app in jt: batch
            invariant
                jt.seq() == b,
                all.subrange(start, start + b.len()) == b,
                0 <= start,
                start + b.len() <= all.len(),
                taken == start + jt.index(),
                unique@ == dedup_apps(all.take(taken)),
                ids@.len() == unique@.len(),
                forall|i: int| 0 <= i < ids@.len() ==> #[trigger] ids@[i]@ == unique@[i].app_id@,
        {
            let ghost t: int = taken;
            proof {
                assert(all[t] == b[jt.index() as int]);
                assert(all.take(t + 1).drop_last() =~= all.take(t));
                assert(all.take(t + 1).last() == app);
            }
            let id = chars_of(app.app_id.as_str());
            let mut dup = false;
            let mut k: usize = 0;
            while k < ids.len()
                invariant
                    k <= ids@.len(),
                    ids@.len() == unique@.len(),
                    forall|i: int| 0 <= i < ids@.len() ==> #[trigger] ids@[i]@ == unique@[i].app_id@,
                    dup == exists|i: int| 0 <= i < k && #[trigger] unique@[i].app_id@ == id@,
                decreases ids.len() - k,
            {
                if chars_eq(&ids[k], &id) {
                    dup = true;
                }
                proof {
                    if ids@[k as int]@ == id@ {
                        assert(unique@[k as int].app_id@ == id@);
                    }
                    if dup && !(exists|i: int| 0 <= i < k && #[trigger] unique@[i].app_id@ == id@) {
                        assert(unique@[k as int].app_id@ == id@);
                    }
                }
                k += 1;
            }
            if !dup {
                unique.push(app);
                ids.push(id);
            }
            proof {
                taken = taken + 1;
            }
        }
        proof {
            if it.index() == 0 {
                assert(taken == srcs[0]@.len());
            }
        }
    }
    proof {
        assert(all.take(all.len() as int) =~= all);
    }
    let mut sorted: Vec<DesktopApp> = Vec::new();
    let mut keys: Vec<Vec<char>> = Vec::new();
    let ghost u = unique@;
    let ghost mut done: int = 0;
    for app in it: unique
        invariant
            it.seq() == u,
            done == it.index(),
            sorted@ == sorted_apps(u.take(done)),
            keys@.len() == sorted@.len(),
            forall|i: int| 0 <= i < keys@.len() ==> #[trigger] keys@[i]@ == sort_key(sorted@[i]),
    {
        let key = key_of(&app);
        proof {
            assert(u.take(done + 1).drop_last() =~= u.take(done));
            assert(u.take(done + 1).last() == app);
        }
        let mut p: usize = 0;
        while p < sorted.len() && !chars_less(&key, &keys[p])
            invariant
                p <= sorted@.len(),
                keys@.len() == sorted@.len(),
                forall|i: int| 0 <= i < keys@.len() ==> #[trigger] keys@[i]@ == sort_key(sorted@[i]),
                key@ == sort_key(app),
                forall|j: int| 0 <= j < p ==> !str_less(sort_key(app), #[trigger] sort_key(sorted@[j])),
            decreases sorted.len() - p,
        {
            p += 1;
        }
        proof {
            lemma_insert_pos(sorted@, app, p as int);
        }
        let ghost before = sorted@;
        let ghost kb = keys@;
        sorted.insert(p, app);
        keys.insert(p, key);
        proof {
            assert forall|i: int| 0 <= i < keys@.len() implies #[trigger] keys@[i]@ == sort_key(sorted@[i]) by {
                if i < p {
                    assert(keys@[i] == kb[i] && sorted@[i] == before[i]);
                } else if i > p {
                    assert(keys@[i] == kb[i - 1] && sorted@[i] == before[i - 1]);
                }
            }
        }
        proof {
            done = done + 1;
        }
    }
    proof {
        assert(u.take(u.len() as int) =~= u);
    }
    sorted
}

/// What `Path::file_stem` gives for the path `p`: its last component
/// without the extension, when there is one and it is valid Unicode.
pub uninterp spec fn spec_file_stem(p: Seq<char>) -> Option<Seq<char>>;

/// `Path::file_stem` of `p`, as text. The result is named after the path.
#[verifier::external_body]
fn file_stem(p: &str) -> (r: Option<String>)
    ensures
        opt_view(r) == spec_file_stem(p@),
{
    std::path::Path::new(p).file_stem().and_then(|s| s.to_str()).map(|s| s.to_string())
}

/// What `Path::parent` gives for the path `p`, as text.
pub uninterp spec fn spec_path_parent(p: Seq<char>) -> Option<Seq<char>>;

/// `Path::parent` of `p`, as text. The result is named after the path.
#[verifier::external_body]
fn path_parent(p: &str) -> (r: Option<String>)
    ensures
        opt_view(r) == spec_path_parent(p@),
{
    std::path::Path::new(p).parent().map(|d| d.to_string_lossy().into_owned())
}

/// Whether `Path` equality holds between the paths `a` and `b` (component by
/// component).
pub uninterp spec fn spec_same_path(a: Seq<char>, b: Seq<char>) -> bool;

/// `Path::new(a) == Path::new(b)`. The result is named after the two paths.
#[verifier::external_body]
fn same_path(a: &str, b: &str) -> (r: bool)
    ensures
        r == spec_same_path(a@, b@),
{
    std::path::Path::new(a) == std::path::Path::new(b)
}

/// The executable a Squirrel shortcut really starts, when its target is
/// `Update.exe` and its arguments name one.
pub fn lnk_squirrel_exe(r: &ResolvedShortcut) -> (exe: Option<String>)
    ensures
        match exe {
            Some(n) => r.target@.len() > 0 && ends_with(spec_lowercase(r.target@), "update.exe"@) && squirrel_from(
                words(r.arguments@),
                0,
            ) == Some(n@),
            None => !(r.target@.len() > 0 && ends_with(spec_lowercase(r.target@), "update.exe"@)) || squirrel_from(
                words(r.arguments@),
                0,
            ) is None,
        },
{
    if r.target.as_str().is_empty() || !is_squirrel_update(r.target.as_str()) {
        return None;
    }
    squirrel_process_start(r.arguments.as_str())
}

/// Where a Squirrel app's executable was found.
pub enum SquirrelPick {
    /// In the shortcut's working directory.
    InWorkDir,
    /// Beside `Update.exe`.
    InUpdateDir,
    /// In the version directory at this index of the listing.
    InVersionDir(usize),
    /// Nowhere: the shortcut keeps starting `Update.exe`.
    NotFound,
}

/// The first place the executable exists, in the order searched: the working
/// directory, the directory of `Update.exe`, the newest version directory.
pub fn pick_squirrel_exe(in_work_dir: bool, in_update_dir: bool, newest: Option<usize>) -> (r: SquirrelPick)
    ensures
        r == (if in_work_dir {
            SquirrelPick::InWorkDir
        } else if in_update_dir {
            SquirrelPick::InUpdateDir
        } else {
            match newest {
                Some(k) => SquirrelPick::InVersionDir(k),
                None => SquirrelPick::NotFound,
            }
        }),
{
    if in_work_dir {
        SquirrelPick::InWorkDir
    } else if in_update_dir {
        SquirrelPick::InUpdateDir
    } else {
        match newest {
            Some(k) => SquirrelPick::InVersionDir(k),
            None => SquirrelPick::NotFound,
        }
    }
}

/// What `Path::join` gives for the path `base` joined with `name`, as text.
pub uninterp spec fn spec_path_join(base: Seq<char>, name: Seq<char>) -> Seq<char>;

/// `Path::join` of `base` and `name`, as text. The result is named after the
/// two paths.
#[verifier::external_body]
fn path_join(base: &str, name: &str) -> (r: String)
    ensures
        r@ == spec_path_join(base@, name@),
{
    std::path::Path::new(base).join(name).to_string_lossy().into_owned()
}

/// Where the real executable of a Squirrel shortcut is looked for.
pub struct SquirrelSearch {
    /// The executable's file name, as `--processStart` gives it.
    pub exe: String,
    /// The executable in the shortcut's working directory.
    pub in_work_dir: String,
    /// The directory of `Update.exe`, where the version directories are.
    pub update_dir: Option<String>,
    /// The executable beside `Update.exe`.
    pub in_update_dir: Option<String>,
}

/// The places to look for the real executable of the shortcut `r`; `None`
/// when it is no Squirrel shortcut (see `is_squirrel_shortcut`).
pub fn squirrel_search(r: &ResolvedShortcut) -> (s: Option<SquirrelSearch>)
    ensures
        match s {
            Some(s) => {
                &&& is_squirrel_shortcut(*r)
                &&& Some(s.exe@) == squirrel_from(words(r.arguments@), 0)
                &&& s.in_work_dir@ == spec_path_join(r.working_dir@, s.exe@)
                &&& opt_view(s.update_dir) == spec_path_parent(r.target@)
                &&& opt_view(s.in_update_dir) == match spec_path_parent(r.target@) {
                    Some(d) => Some(spec_path_join(d, s.exe@)),
                    None => None,
                }
            },
            None => !is_squirrel_shortcut(*r),
        },
{
    let exe = match lnk_squirrel_exe(r) {
        Some(e) => e,
        None => return None,
    };
    let in_work_dir = path_join(r.working_dir.as_str(), exe.as_str());
    let update_dir = path_parent(r.target.as_str());
    let in_update_dir = match &update_dir {
        Some(d) => Some(path_join(d.as_str(), exe.as_str())),
        None => None,
    };
    Some(SquirrelSearch { exe, in_work_dir, update_dir, in_update_dir })
}

/// The executable `exe` inside the directory `dir`.
pub fn exe_in_dir(dir: &str, exe: &str) -> (p: String)
    ensures
        p@ == spec_path_join(dir@, exe@),
{
    path_join(dir, exe)
}

/// The executable that `pick` (see `pick_squirrel_exe`) chose among the
/// places of `s`, with `version_dirs` the directories listed beside
/// `Update.exe`; `None` when it found none.
pub fn squirrel_found(s: &SquirrelSearch, pick: SquirrelPick, version_dirs: &Vec<String>) -> (r: Option<String>)
    requires
        pick matches SquirrelPick::InVersionDir(k) ==> k < version_dirs@.len(),
    ensures
        opt_view(r) == match pick {
            SquirrelPick::InWorkDir => Some(s.in_work_dir@),
            SquirrelPick::InUpdateDir => opt_view(s.in_update_dir),
            SquirrelPick::InVersionDir(k) => Some(spec_path_join(version_dirs@[k as int]@, s.exe@)),
            SquirrelPick::NotFound => None,
        },
{
    match pick {
        SquirrelPick::InWorkDir => Some(owned(s.in_work_dir.as_str())),
        SquirrelPick::InUpdateDir => match &s.in_update_dir {
            Some(p) => Some(owned(p.as_str())),
            None => None,
        },
        SquirrelPick::InVersionDir(k) => Some(path_join(version_dirs[k].as_str(), s.exe.as_str())),
        SquirrelPick::NotFound => None,
    }
}

/// Whether the resolved shortcut `r` starts a Squirrel `Update.exe` that names
/// the real executable with `--processStart` (see `lnk_squirrel_exe`).
pub open spec fn is_squirrel_shortcut(r: ResolvedShortcut) -> bool {
    &&& r.target@.len() > 0
    &&& ends_with(spec_lowercase(r.target@), "update.exe"@)
    &&& squirrel_from(words(r.arguments@), 0) is Some
}

/// The launcher entry of the shortcut file at `path`, resolved to `r`
/// (`None` when it could not be read); `icon_exists` tells whether its icon
/// file exists. For a Squirrel shortcut, `found` is where its real executable
/// was found on disk: it replaces the target, its directory the working
/// directory, and the arguments are dropped. `None` without a file stem or a
/// target.
pub fn parse_lnk_file(path: &str, r: Option<ResolvedShortcut>, icon_exists: bool, found: Option<String>) -> (app: Option<
    DesktopApp,
>)
    ensures
        match (spec_file_stem(path@), r) {
            (Some(stem), Some(res)) => if res.target@.len() > 0 {
                let icon = if icon_exists { opt_view(res.icon) } else { None };
                let rewrite = is_squirrel_shortcut(res) && match found {
                    Some(c) => c@.len() > 0,
                    None => false,
                };
                app is Some && if rewrite {
                    let c = found->0@;
                    let dir = match spec_path_parent(c) {
                        Some(d) => d,
                        None => res.working_dir@,
                    };
                    is_shortcut_app(app->0, stem, path@, c, ""@, dir, icon)
                } else {
                    is_shortcut_app(app->0, stem, path@, res.target@, res.arguments@, res.working_dir@, icon)
                }
            } else {
                app is None
            },
            _ => app is None,
        },
{
    let stem = match file_stem(path) {
        Some(s) => s,
        None => return None,
    };
    let res = match r {
        Some(res) => res,
        None => return None,
    };
    if res.target.as_str().is_empty() {
        return None;
    }
    let is_squirrel = lnk_squirrel_exe(&res).is_some();
    let icon = if icon_exists {
        res.icon
    } else {
        None
    };
    match found {
        Some(c) => {
            if is_squirrel && !c.as_str().is_empty() {
                let dir = match path_parent(c.as_str()) {
                    Some(d) => d,
                    None => res.working_dir,
                };
                return app_from_shortcut(stem.as_str(), path, c, owned(""), dir, icon);
            }
            app_from_shortcut(stem.as_str(), path, res.target, res.arguments, res.working_dir, icon)
        },
        None => app_from_shortcut(stem.as_str(), path, res.target, res.arguments, res.working_dir, icon),
    }
}

/// The app started by the executable at `path` picked in the game: its path
/// is its id and executable, its directory its working directory.
pub fn exe_app(path: &str) -> (a: DesktopApp)
    ensures
        a.app_id@ == path@,
        a.name is None && a.generic_name is None,
        opt_view(a.exec_path) == Some(path@),
        a.exec_args is None,
        opt_view(a.working_dir) == spec_path_parent(path@),
        !a.exec_terminal && a.comment is None,
        a.keywords@.len() == 0 && a.categories@.len() == 0,
        a.visible && a.icon_path is None,
{
    DesktopApp {
        app_id: owned(path),
        name: None,
        generic_name: None,
        exec_path: Some(owned(path)),
        exec_args: None,
        working_dir: path_parent(path),
        exec_terminal: false,
        comment: None,
        keywords: Vec::new(),
        categories: Vec::new(),
        visible: true,
        icon_path: None,
    }
}

/// The first app of `apps` whose executable is the path `path`.
pub fn find_app_by_exec(apps: &Vec<DesktopApp>, path: &str) -> (r: Option<usize>)
    ensures
        match r {
            Some(k) => k < apps@.len() && (apps@[k as int].exec_path matches Some(e) && spec_same_path(e@, path@))
                && forall|j: int| 0 <= j < k ==> !(#[trigger] apps@[j].exec_path matches Some(e) && spec_same_path(e@, path@)),
            None => forall|j: int| 0 <= j < apps@.len() ==> !(#[trigger] apps@[j].exec_path matches Some(e) && spec_same_path(e@, path@)),
        },
{
    let mut i: usize = 0;
    while i < apps.len()
        invariant
            i <= apps@.len(),
            forall|j: int| 0 <= j < i ==> !(#[trigger] apps@[j].exec_path matches Some(e) && spec_same_path(e@, path@)),
        decreases apps.len() - i,
    {
        if let Some(e) = &apps[i].exec_path {
            if same_path(e.as_str(), path) {
                return Some(i);
            }
        }
        i += 1;
    }
    None
}

} // verus!
