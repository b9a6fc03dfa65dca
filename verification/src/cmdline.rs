use vstd::prelude::*;

use crate::apps::strings_view;
use crate::text::{
    chars_of, is_whitespace, is_ws, spec_lowercase, starts_with, str_eq, str_starts_with,
    string_from_chars, to_lowercase,
};

verus! {

pub open spec fn is_path_sep(c: char) -> bool {
    c == '/' || c == '\\'
}

/// The part of `s` after its last `/` or `\`.
pub open spec fn last_segment(s: Seq<char>) -> Seq<char>
    decreases s.len(),
{
    if s.len() == 0 {
        s
    } else if is_path_sep(s.last()) {
        Seq::empty()
    } else {
        last_segment(s.drop_last()).push(s.last())
    }
}

/// The part of `s` before its first `c`.
pub open spec fn before_char(s: Seq<char>, c: char) -> Seq<char>
    decreases s.len(),
{
    if s.len() == 0 {
        s
    } else if s[0] == c {
        Seq::empty()
    } else {
        seq![s[0]] + before_char(s.drop_first(), c)
    }
}

/// The lowercased file stem of a path: its last component up to the first dot.
pub open spec fn path_hint(path: Seq<char>) -> Seq<char> {
    spec_lowercase(before_char(last_segment(path), '.'))
}

proof fn lemma_before_char(s: Seq<char>, c: char, i: int)
    requires
        0 <= i <= s.len(),
        forall|j: int| 0 <= j < i ==> s[j] != c,
        i == s.len() || s[i] == c,
    ensures
        before_char(s, c) == s.take(i),
    decreases i,
{
    if i == 0 {
        assert(s.take(0) =~= Seq::<char>::empty());
    } else {
        lemma_before_char(s.drop_first(), c, i - 1);
        assert(seq![s[0]] + s.drop_first().take(i - 1) =~= s.take(i));
    }
}

fn last_segment_exec(s: &str) -> (v: Vec<char>)
    ensures
        v@ == last_segment(s@),
{
    let cs = chars_of(s);
    let mut v: Vec<char> = Vec::new();
    let mut i: usize = 0;
    while i < cs.len()
        invariant
            i <= cs@.len(),
            cs@ == s@,
            v@ == last_segment(cs@.take(i as int)),
        decreases cs.len() - i,
    {
        let c = cs[i];
        proof {
            assert(cs@.take(i + 1).drop_last() =~= cs@.take(i as int));
            assert(cs@.take(i + 1).last() == c);
        }
        if c == '/' || c == '\\' {
            v = Vec::new();
        } else {
            v.push(c);
        }
        i += 1;
    }
    assert(cs@.take(cs@.len() as int) =~= cs@);
    v
}

fn before_char_exec(s: &Vec<char>, c: char) -> (v: Vec<char>)
    ensures
        v@ == before_char(s@, c),
{
    let mut v: Vec<char> = Vec::new();
    let mut i: usize = 0;
    while i < s.len()
        invariant
            i <= s@.len(),
            v@ == s@.take(i as int),
            forall|j: int| 0 <= j < i ==> s@[j] != c,
        decreases s.len() - i,
    {
        if s[i] == c {
            proof {
                lemma_before_char(s@, c, i as int);
            }
            return v;
        }
        v.push(s[i]);
        assert(s@.take(i as int).push(s@[i as int]) =~= s@.take(i + 1));
        i += 1;
    }
    proof {
        lemma_before_char(s@, c, i as int);
    }
    v
}

/// The lowercased file stem of `path`, used to recognise an executable and to
/// match its window title.
pub fn hint_from_path(path: &str) -> (r: String)
    ensures
        r@ == path_hint(path@),
{
    let seg = last_segment_exec(path);
    let stem = before_char_exec(&seg, '.');
    let s = string_from_chars(&stem);
    to_lowercase(s.as_str())
}

/// File stems of Chromium, Electron and CEF programs, which take the flags
/// that keep a window on an invisible desktop rendering.
pub open spec fn is_chromium_name(n: Seq<char>) -> bool {
    ||| n == "opera"@
    ||| n == "opera_gx"@
    ||| n == "operagx"@
    ||| n == "launcher"@
    ||| n == "chrome"@
    ||| n == "msedge"@
    ||| n == "edge"@
    ||| n == "brave"@
    ||| n == "vivaldi"@
    ||| n == "yandex"@
    ||| n == "browser"@
    ||| n == "discord"@
    ||| n == "discordptb"@
    ||| n == "discordcanary"@
    ||| n == "slack"@
    ||| n == "code"@
    ||| n == "code - insiders"@
    ||| n == "spotify"@
    ||| n == "whatsapp"@
    ||| n == "teams"@
    ||| n == "ms-teams"@
    ||| n == "chromium"@
    ||| n == "thorium"@
    ||| n == "electron"@
    ||| n == "steam"@
    ||| n == "steamwebhelper"@
    ||| n == "epicgameslauncher"@
    ||| n == "galaxyclient"@
    ||| n == "battle.net"@
    ||| n == "eadesktop"@
}

fn chromium_name(n: &str) -> (r: bool)
    ensures
        r == is_chromium_name(n@),
{
    str_eq(n, "opera") || str_eq(n, "opera_gx") || str_eq(n, "operagx") || str_eq(n, "launcher")
        || str_eq(n, "chrome") || str_eq(n, "msedge") || str_eq(n, "edge") || str_eq(n, "brave")
        || str_eq(n, "vivaldi") || str_eq(n, "yandex") || str_eq(n, "browser") || str_eq(
        n,
        "discord",
    ) || str_eq(n, "discordptb") || str_eq(n, "discordcanary") || str_eq(n, "slack") || str_eq(
        n,
        "code",
    ) || str_eq(n, "code - insiders") || str_eq(n, "spotify") || str_eq(n, "whatsapp") || str_eq(
        n,
        "teams",
    ) || str_eq(n, "ms-teams") || str_eq(n, "chromium") || str_eq(n, "thorium") || str_eq(
        n,
        "electron",
    ) || str_eq(n, "steam") || str_eq(n, "steamwebhelper") || str_eq(n, "epicgameslauncher")
        || str_eq(n, "galaxyclient") || str_eq(n, "battle.net") || str_eq(n, "eadesktop")
}

/// Whether `exec` names a Chromium/Electron program, by its file stem.
pub fn is_chromium_executable(exec: &str) -> (r: bool)
    ensures
        r == is_chromium_name(path_hint(exec@)),
{
    let name = hint_from_path(exec);
    chromium_name(name.as_str())
}

/// File stems of game launchers, which start games as separate processes.
pub open spec fn is_launcher_name(n: Seq<char>) -> bool {
    ||| n == "steam"@
    ||| n == "steamwebhelper"@
    ||| n == "epicgameslauncher"@
    ||| n == "galaxyclient"@
    ||| n == "battle.net"@
    ||| n == "battlenet"@
    ||| n == "eadesktop"@
    ||| n == "origin"@
    ||| n == "riotclientservices"@
    ||| n == "vortex"@
    ||| n == "tlauncher"@
    ||| n == "minecraftlauncher"@
    ||| n == "javaw"@
    ||| n == "java"@
    ||| n == "playnite"@
    ||| n == "uplay"@
    ||| n == "upc"@
}

/// Whether `stem`, a lowercased executable file stem, is a game launcher.
pub fn is_launcher_executable(stem: &str) -> (r: bool)
    ensures
        r == is_launcher_name(stem@),
{
    str_eq(stem, "steam") || str_eq(stem, "steamwebhelper") || str_eq(stem, "epicgameslauncher")
        || str_eq(stem, "galaxyclient") || str_eq(stem, "battle.net") || str_eq(stem, "battlenet")
        || str_eq(stem, "eadesktop") || str_eq(stem, "origin") || str_eq(stem, "riotclientservices")
        || str_eq(stem, "vortex") || str_eq(stem, "tlauncher") || str_eq(stem, "minecraftlauncher")
        || str_eq(stem, "javaw") || str_eq(stem, "java") || str_eq(stem, "playnite") || str_eq(
        stem,
        "uplay",
    ) || str_eq(stem, "upc")
}

/// The state of the argument splitter after some characters: the finished
/// arguments, the one being read, whether inside double quotes, and whether
/// an argument has started (an empty `""` starts one).
pub open spec fn split_step(
    st: (Seq<Seq<char>>, Seq<char>, bool, bool),
    c: char,
) -> (Seq<Seq<char>>, Seq<char>, bool, bool) {
    let (out, cur, quoted, have) = st;
    if c == '"' {
        (out, cur, !quoted, true)
    } else if is_ws(c) && !quoted {
        if have {
            (out.push(cur), Seq::empty(), quoted, false)
        } else {
            st
        }
    } else {
        (out, cur.push(c), quoted, true)
    }
}

pub open spec fn split_fold(s: Seq<char>) -> (Seq<Seq<char>>, Seq<char>, bool, bool)
    decreases s.len(),
{
    if s.len() == 0 {
        (Seq::empty(), Seq::empty(), false, false)
    } else {
        split_step(split_fold(s.drop_last()), s.last())
    }
}

/// The arguments of a shortcut's command line: split at whitespace outside
/// double quotes, the quotes themselves dropped.
pub open spec fn split_args_spec(s: Seq<char>) -> Seq<Seq<char>> {
    let (out, cur, _quoted, have) = split_fold(s);
    if have {
        out.push(cur)
    } else {
        out
    }
}

/// Splits a shortcut's argument string into arguments, honouring
/// double-quoted groups.
pub fn split_args(s: &str) -> (r: Vec<String>)
    ensures
        strings_view(r@) == split_args_spec(s@),
{
    let cs = chars_of(s);
    let mut out: Vec<String> = Vec::new();
    let mut cur: Vec<char> = Vec::new();
    let mut in_quotes = false;
    let mut have_token = false;
    let mut i: usize = 0;
    while i < cs.len()
        invariant
            i <= cs@.len(),
            cs@ == s@,
            split_fold(cs@.take(i as int)) == (strings_view(out@), cur@, in_quotes, have_token),
        decreases cs.len() - i,
    {
        let c = cs[i];
        proof {
            assert(cs@.take(i + 1).drop_last() =~= cs@.take(i as int));
            assert(cs@.take(i + 1).last() == c);
        }
        if c == '"' {
            in_quotes = !in_quotes;
            have_token = true;
        } else if is_whitespace(c) && !in_quotes {
            if have_token {
                let ghost before = out@;
                let ghost old_cur = cur@;
                out.push(string_from_chars(&cur));
                cur = Vec::new();
                have_token = false;
                proof {
                    assert(strings_view(out@) =~= strings_view(before).push(old_cur));
                }
            }
        } else {
            cur.push(c);
            have_token = true;
        }
        i += 1;
    }
    assert(cs@.take(cs@.len() as int) =~= cs@);
    if have_token {
        let ghost before = out@;
        out.push(string_from_chars(&cur));
        proof {
            assert(strings_view(out@) =~= strings_view(before).push(cur@));
        }
    }
    out
}

/// Whether some argument of `args` starts with `key`.
pub open spec fn has_arg_with_prefix(args: Seq<Seq<char>>, key: Seq<char>) -> bool {
    exists|i: int| 0 <= i < args.len() && starts_with(args[i], key)
}

/// `args` with `flag` appended, unless an argument already starts with the
/// flag's name (the part before `=`).
pub open spec fn with_flag(args: Seq<Seq<char>>, flag: Seq<char>) -> Seq<Seq<char>> {
    if has_arg_with_prefix(args, before_char(flag, '=')) {
        args
    } else {
        args.push(flag)
    }
}

/// `args` with the flags that stop Chromium from freezing a window it
/// believes hidden.
pub open spec fn with_chromium_flags(args: Seq<Seq<char>>) -> Seq<Seq<char>> {
    with_flag(
        with_flag(
            with_flag(
                with_flag(args, "--disable-features=CalculateNativeWinOcclusion"@),
                "--disable-backgrounding-occluded-windows"@,
            ),
            "--disable-renderer-backgrounding"@,
        ),
        "--disable-background-timer-throttling"@,
    )
}

fn add_flag(args: &mut Vec<String>, flag: &str)
    ensures
        strings_view(final(args)@) == with_flag(strings_view(old(args)@), flag@),
{
    let fc = chars_of(flag);
    let key_chars = before_char_exec(&fc, '=');
    let key = string_from_chars(&key_chars);
    let mut i: usize = 0;
    while i < args.len()
        invariant
            i <= args@.len(),
            key@ == before_char(flag@, '='),
            forall|j: int| 0 <= j < i ==> !starts_with(#[trigger] strings_view(args@)[j], key@),
        decreases args.len() - i,
    {
        if str_starts_with(args[i].as_str(), key.as_str()) {
            proof {
                assert(starts_with(strings_view(args@)[i as int], key@));
            }
            return;
        }
        i += 1;
    }
    let ghost before = args@;
    args.push(flag.to_owned());
    proof {
        assert(strings_view(args@) =~= strings_view(before).push(flag@));
    }
}

/// Appends the Chromium anti-freeze flags that `args` does not carry yet.
pub fn add_chromium_flags(args: &mut Vec<String>)
    ensures
        strings_view(final(args)@) == with_chromium_flags(strings_view(old(args)@)),
{
    add_flag(args, "--disable-features=CalculateNativeWinOcclusion");
    add_flag(args, "--disable-backgrounding-occluded-windows");
    add_flag(args, "--disable-renderer-backgrounding");
    add_flag(args, "--disable-background-timer-throttling");
}

/// An argument as written on a command line: in double quotes when it
/// holds a space.
pub open spec fn quoted_arg(a: Seq<char>) -> Seq<char> {
    if a.contains(' ') {
        seq!['"'] + a + seq!['"']
    } else {
        a
    }
}

/// Each argument preceded by a space.
pub open spec fn args_tail(args: Seq<Seq<char>>) -> Seq<char>
    decreases args.len(),
{
    if args.len() == 0 {
        Seq::empty()
    } else {
        args_tail(args.drop_last()) + seq![' '] + quoted_arg(args.last())
    }
}

/// The command line handed to `CreateProcessW`: none without arguments,
/// else the quoted program followed by the arguments.
pub open spec fn command_line_spec(program: Seq<char>, args: Seq<Seq<char>>) -> Option<Seq<char>> {
    if args.len() == 0 {
        None
    } else {
        Some(seq!['"'] + program + seq!['"'] + args_tail(args))
    }
}

fn push_all(v: &mut Vec<char>, s: &Vec<char>)
    ensures
        final(v)@ == old(v)@ + s@,
{
    let mut i: usize = 0;
    while i < s.len()
        invariant
            i <= s@.len(),
            v@ == old(v)@ + s@.take(i as int),
        decreases s.len() - i,
    {
        v.push(s[i]);
        assert(old(v)@ + s@.take(i as int) + seq![s@[i as int]] =~= old(v)@ + s@.take(i + 1));
        i += 1;
    }
    assert(s@.take(s@.len() as int) =~= s@);
}

fn vec_has_char(s: &Vec<char>, c: char) -> (r: bool)
    ensures
        r == s@.contains(c),
{
    let mut i: usize = 0;
    while i < s.len()
        invariant
            i <= s@.len(),
            forall|j: int| 0 <= j < i ==> s@[j] != c,
        decreases s.len() - i,
    {
        if s[i] == c {
            assert(s@[i as int] == c);
            return true;
        }
        i += 1;
    }
    false
}

/// The command line for running `program` with `args`.
pub fn command_line(program: &str, args: &Vec<String>) -> (r: Option<String>)
    ensures
        opt_chars(r) == command_line_spec(program@, strings_view(args@)),
{
    if args.len() == 0 {
        return None;
    }
    let mut v: Vec<char> = Vec::new();
    v.push('"');
    push_all(&mut v, &chars_of(program));
    v.push('"');
    let ghost head = v@;
    assert(head =~= seq!['"'] + program@ + seq!['"']);
    let mut i: usize = 0;
    while i < args.len()
        invariant
            i <= args@.len(),
            head == seq!['"'] + program@ + seq!['"'],
            v@ == head + args_tail(strings_view(args@).take(i as int)),
        decreases args.len() - i,
    {
        let a = chars_of(args[i].as_str());
        let ghost before = v@;
        v.push(' ');
        if vec_has_char(&a, ' ') {
            v.push('"');
            push_all(&mut v, &a);
            v.push('"');
        } else {
            push_all(&mut v, &a);
        }
        proof {
            let t = strings_view(args@).take(i + 1);
            assert(t.drop_last() =~= strings_view(args@).take(i as int));
            assert(t.last() == args@[i as int]@);
            assert(v@ =~= head + args_tail(t));
        }
        i += 1;
    }
    assert(strings_view(args@).take(args@.len() as int) =~= strings_view(args@));
    Some(string_from_chars(&v))
}

pub open spec fn opt_chars(o: Option<String>) -> Option<Seq<char>> {
    match o {
        Some(s) => Some(s@),
        None => None,
    }
}

/// The arguments joined by single spaces.
pub open spec fn join_spaces(args: Seq<Seq<char>>) -> Seq<char>
    decreases args.len(),
{
    if args.len() == 0 {
        Seq::empty()
    } else if args.len() == 1 {
        args[0]
    } else {
        join_spaces(args.drop_last()) + seq![' '] + args.last()
    }
}

/// The arguments joined by single spaces, as `ShellExecuteW` takes them.
pub fn join_args(args: &Vec<String>) -> (r: String)
    ensures
        r@ == join_spaces(strings_view(args@)),
{
    let mut v: Vec<char> = Vec::new();
    let mut i: usize = 0;
    while i < args.len()
        invariant
            i <= args@.len(),
            v@ == join_spaces(strings_view(args@).take(i as int)),
        decreases args.len() - i,
    {
        let a = chars_of(args[i].as_str());
        if i > 0 {
            v.push(' ');
        }
        push_all(&mut v, &a);
        proof {
            let t = strings_view(args@).take(i + 1);
            assert(t.drop_last() =~= strings_view(args@).take(i as int));
            assert(t.last() == args@[i as int]@);
            if i == 0 {
                assert(t[0] == a@);
                assert(v@ =~= join_spaces(t));
            } else {
                assert(v@ =~= join_spaces(t));
            }
        }
        i += 1;
    }
    assert(strings_view(args@).take(args@.len() as int) =~= strings_view(args@));
    string_from_chars(&v)
}

} // verus!
