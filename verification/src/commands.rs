//! How the app's child processes are set up: which shell and launcher to run, with which
//! arguments and search path, where the dsh profile lives, and how captured output is read.

use vstd::prelude::*;
use vstd::string::StringExecFns;
use crate::launch::opt_view;
use crate::text::{
    chars_of, char_is_whitespace, decode_utf8_lossy, is_whitespace, occurs_at, str_equal,
    string_from_range, utf8_lossy,
};

verus! {

/// The strings of a vector, as character sequences.
pub open spec fn strings_view(v: Seq<String>) -> Seq<Seq<char>> {
    v.map_values(|s: String| s@)
}

/// The places where the fnm version manager is looked for, in order.
pub open spec fn fnm_paths() -> Seq<Seq<char>> {
    seq![
        "/opt/homebrew/bin/fnm"@,
        "/opt/homebrew/opt/fnm/bin/fnm"@,
        "/usr/local/bin/fnm"@,
    ]
}

/// The places where the fnm version manager is looked for. Going through fnm makes the app
/// work when launched from the GUI, whose minimal PATH lacks node, npm and dsh.
pub fn fnm_candidates() -> (r: Vec<String>)
    ensures
        strings_view(r@) == fnm_paths(),
{
    let r = vec![
        String::from_str("/opt/homebrew/bin/fnm"),
        String::from_str("/opt/homebrew/opt/fnm/bin/fnm"),
        String::from_str("/usr/local/bin/fnm"),
    ];
    assert(strings_view(r@) =~= fnm_paths());
    r
}

/// The first candidate that exists, given which of them exist (as many flags as candidates).
pub open spec fn first_existing_spec(cands: Seq<Seq<char>>, exists: Seq<bool>) -> Option<Seq<char>>
    decreases cands.len(),
{
    if cands.len() == 0 || exists.len() == 0 {
        None
    } else if exists[0] {
        Some(cands[0])
    } else {
        first_existing_spec(cands.drop_first(), exists.drop_first())
    }
}

/// The first candidate (such as an fnm binary) that exists.
pub fn first_existing(cands: &Vec<String>, exists: &Vec<bool>) -> (r: Option<String>)
    ensures
        opt_view(r) == first_existing_spec(strings_view(cands@), exists@),
{
    let mut i: usize = 0;
    assert(strings_view(cands@).skip(0) =~= strings_view(cands@));
    assert(exists@.skip(0) =~= exists@);
    while i < cands.len() && i < exists.len()
        invariant
            i <= cands.len(),
            i <= exists.len(),
            first_existing_spec(strings_view(cands@), exists@) == first_existing_spec(
                strings_view(cands@).skip(i as int),
                exists@.skip(i as int),
            ),
        decreases cands.len() - i,
    {
        assert(strings_view(cands@).skip(i as int).drop_first() =~= strings_view(cands@).skip(
            i + 1,
        ));
        assert(exists@.skip(i as int).drop_first() =~= exists@.skip(i + 1));
        assert(strings_view(cands@).skip(i as int)[0] == cands@[i as int]@);
        if exists[i] {
            return Some(cands[i].clone());
        }
        i += 1;
    }
    assert(strings_view(cands@).skip(i as int).len() == 0 || exists@.skip(i as int).len() == 0);
    None
}

/// What the CLI terminal's spawn request answers: `reused` when a shell already runs (the
/// reloaded shell page asks on every boot, and a second terminal would orphan the first),
/// `spawned` after starting one.
pub fn shell_reply(already_running: bool) -> (r: String)
    ensures
        r@ == (if already_running {
            "reused"@
        } else {
            "spawned"@
        }),
{
    if already_running {
        String::from_str("reused")
    } else {
        String::from_str("spawned")
    }
}

/// The arguments that make fnm run `bin` with the default Node.js:
/// `exec --using default -- <bin>`.
pub open spec fn fnm_args(bin: Seq<char>) -> Seq<Seq<char>> {
    seq!["exec"@, "--using"@, "default"@, "--"@, bin]
}

/// The arguments that make fnm run `bin` with the default Node.js.
pub fn fnm_exec_args(bin: &str) -> (r: Vec<String>)
    ensures
        strings_view(r@) == fnm_args(bin@),
{
    let r = vec![
        String::from_str("exec"),
        String::from_str("--using"),
        String::from_str("default"),
        String::from_str("--"),
        String::from_str(bin),
    ];
    assert(strings_view(r@) =~= fnm_args(bin@));
    r
}

/// The npm package of the dsh CLI.
pub open spec fn dsh_package() -> Seq<char> {
    "@deepseek-ai/dsh"@
}

/// The arguments of `npm <action> -g @deepseek-ai/dsh`.
pub fn npm_args(action: &str) -> (r: Vec<String>)
    ensures
        strings_view(r@) == seq![action@, "-g"@, dsh_package()],
{
    let r = vec![String::from_str(action), String::from_str("-g"), String::from_str("@deepseek-ai/dsh")];
    assert(strings_view(r@) =~= seq![action@, "-g"@, dsh_package()]);
    r
}

/// The arguments that start the server: `web --no-open`.
pub fn dsh_web_args() -> (r: Vec<String>)
    ensures
        strings_view(r@) == seq!["web"@, "--no-open"@],
{
    let r = vec![String::from_str("web"), String::from_str("--no-open")];
    assert(strings_view(r@) =~= seq!["web"@, "--no-open"@]);
    r
}

/// The interactive shell of the CLI terminal: the user's login shell (`$SHELL`) when it is
/// a file, then zsh (the macOS default), then bash, then `/bin/sh`.
pub open spec fn shell_choice(
    env_shell: Option<Seq<char>>,
    env_shell_exists: bool,
    zsh_exists: bool,
    bash_exists: bool,
) -> Seq<char> {
    if env_shell is Some && env_shell_exists {
        env_shell->0
    } else if zsh_exists {
        "/bin/zsh"@
    } else if bash_exists {
        "/bin/bash"@
    } else {
        "/bin/sh"@
    }
}

/// The login shell comes first: whenever `$SHELL` is set and names a file, it is the shell
/// chosen, whatever else exists. Otherwise the first of `/bin/zsh` and `/bin/bash` that exists
/// is chosen, and `/bin/sh` when neither does; the chosen shell is always `$SHELL` or one of
/// those three.
pub proof fn lemma_shell_order(
    env_shell: Option<Seq<char>>,
    env_shell_exists: bool,
    zsh_exists: bool,
    bash_exists: bool,
)
    ensures
        env_shell is Some && env_shell_exists ==> shell_choice(
            env_shell,
            env_shell_exists,
            zsh_exists,
            bash_exists,
        ) == env_shell->0,
        !(env_shell is Some && env_shell_exists) && zsh_exists ==> shell_choice(
            env_shell,
            env_shell_exists,
            zsh_exists,
            bash_exists,
        ) == "/bin/zsh"@,
        !(env_shell is Some && env_shell_exists) && !zsh_exists && bash_exists ==> shell_choice(
            env_shell,
            env_shell_exists,
            zsh_exists,
            bash_exists,
        ) == "/bin/bash"@,
        !(env_shell is Some && env_shell_exists) && !zsh_exists && !bash_exists ==> shell_choice(
            env_shell,
            env_shell_exists,
            zsh_exists,
            bash_exists,
        ) == "/bin/sh"@,
{
}

/// Picks the interactive shell, given `$SHELL` and which of the candidates exist as files.
pub fn choose_shell(
    env_shell: Option<String>,
    env_shell_exists: bool,
    zsh_exists: bool,
    bash_exists: bool,
) -> (r: String)
    ensures
        r@ == shell_choice(opt_view(env_shell), env_shell_exists, zsh_exists, bash_exists),
{
    match env_shell {
        Some(s) if env_shell_exists => s,
        _ => if zsh_exists {
            String::from_str("/bin/zsh")
        } else if bash_exists {
            String::from_str("/bin/bash")
        } else {
            String::from_str("/bin/sh")
        },
    }
}

/// Where Node.js is installed under the directory that the environment variable `var`
/// names: `<base>/Programs/nodejs` under `LOCALAPPDATA`, `<base>/nodejs` otherwise.
pub open spec fn node_dir(var: Seq<char>, base: Seq<char>) -> Seq<char> {
    if var == "LOCALAPPDATA"@ {
        base + "/Programs/nodejs"@
    } else {
        base + "/nodejs"@
    }
}

/// The Node.js installation directory to look for under `base`, the value of `var`.
pub fn node_dir_candidate(var: &str, base: &str) -> (r: String)
    ensures
        r@ == node_dir(var@, base@),
{
    let mut r = String::from_str(base);
    if str_equal(var, "LOCALAPPDATA") {
        r.append("/Programs/nodejs");
    } else {
        r.append("/nodejs");
    }
    r
}

/// The global npm directory (`%APPDATA%/npm`) that holds globally installed CLIs such as
/// `dsh.cmd`.
pub fn npm_global_dir(appdata: &str) -> (r: String)
    ensures
        r@ == appdata@ + "/npm"@,
{
    let mut r = String::from_str(appdata);
    r.append("/npm");
    r
}

/// `dirs` joined with `;`.
pub open spec fn join_semicolon(dirs: Seq<Seq<char>>) -> Seq<char>
    decreases dirs.len(),
{
    if dirs.len() == 0 {
        Seq::empty()
    } else if dirs.len() == 1 {
        dirs[0]
    } else {
        join_semicolon(dirs.drop_last()) + ";"@ + dirs.last()
    }
}

/// The search path for child processes: the directories found, joined with `;`, then the
/// inherited path when it is not empty; none when no directory was found.
pub open spec fn search_path(dirs: Seq<Seq<char>>, inherited: Option<Seq<char>>) -> Option<
    Seq<char>,
> {
    if dirs.len() == 0 {
        None
    } else {
        match inherited {
            Some(p) if p.len() > 0 => Some(join_semicolon(dirs) + ";"@ + p),
            _ => Some(join_semicolon(dirs)),
        }
    }
}

/// How the search path is built, call against call: there is one exactly when some directory
/// was found; a single directory `d` gives `d`, and each further directory is added after a
/// `;`; a non-empty inherited path is added after a `;` at the end, and an empty or absent one
/// adds nothing. So `["C:/Program Files/nodejs"]` with `C:/Windows/system32` inherited gives
/// `C:/Program Files/nodejs;C:/Windows/system32`.
pub proof fn lemma_search_path_shape(
    dirs: Seq<Seq<char>>,
    d: Seq<char>,
    inherited: Option<Seq<char>>,
)
    ensures
        search_path(dirs, inherited) is Some <==> dirs.len() > 0,
        search_path(seq![d], None) == Some(d),
        dirs.len() > 0 ==> search_path(dirs.push(d), None) == Some(
            search_path(dirs, None)->0 + ";"@ + d,
        ),
        dirs.len() > 0 && inherited is Some && inherited->0.len() > 0 ==> search_path(dirs, inherited)
            == Some(search_path(dirs, None)->0 + ";"@ + inherited->0),
        dirs.len() > 0 && !(inherited is Some && inherited->0.len() > 0) ==> search_path(
            dirs,
            inherited,
        ) == search_path(dirs, None),
{
    assert(dirs.push(d).drop_last() =~= dirs);
    assert(seq![d].len() == 1);
}

/// Where the `i`-th directory starts in the joined path: after the first `i` directories and
/// the `;` that follows them.
#[verifier::opaque]
pub open spec fn dir_start(dirs: Seq<Seq<char>>, i: int) -> int {
    if i == 0 {
        0
    } else {
        join_semicolon(dirs.take(i)).len() as int + 1
    }
}

/// Every directory found is in the search path, in the order found, each starting right after
/// the ones before it and a `;`; the path starts with the first directory.
pub proof fn lemma_search_path_holds_dirs(dirs: Seq<Seq<char>>, inherited: Option<Seq<char>>)
    requires
        dirs.len() > 0,
    ensures
        occurs_at(search_path(dirs, inherited)->0, dirs[0], 0),
        forall|i: int|
            0 <= i < dirs.len() ==> occurs_at(
                search_path(dirs, inherited)->0,
                #[trigger] dirs[i],
                dir_start(dirs, i),
            ),
        forall|i: int|
            #![trigger dir_start(dirs, i)]
            0 < i < dirs.len() ==> search_path(dirs, inherited)->0[dir_start(dirs, i) - 1] == ';'
                && dir_start(dirs, i - 1) + dirs[i - 1].len() == dir_start(dirs, i) - 1,
{
    reveal_strlit(";");
    lemma_join_holds_dirs(dirs);
    assert(dir_start(dirs, 0) == 0) by {
        reveal(dir_start);
    }
    let j = join_semicolon(dirs);
    let r = search_path(dirs, inherited)->0;
    let rest: Seq<char> = if inherited is Some && inherited->0.len() > 0 {
        ";"@ + inherited->0
    } else {
        Seq::empty()
    };
    assert(r =~= j + rest);
    assert forall|i: int| 0 <= i < dirs.len() implies occurs_at(
        r,
        #[trigger] dirs[i],
        dir_start(dirs, i),
    ) by {
        crate::text::lemma_occurs_prefix(j, rest, dirs[i], dir_start(dirs, i));
    }
    assert forall|i: int| #![trigger dir_start(dirs, i)] 0 < i < dirs.len() implies r[dir_start(
        dirs,
        i,
    ) - 1] == ';' && dir_start(dirs, i - 1) + dirs[i - 1].len() == dir_start(dirs, i) - 1 by {
        assert(occurs_at(j, dirs[i], dir_start(dirs, i)));
        assert((j + rest)[dir_start(dirs, i) - 1] == j[dir_start(dirs, i) - 1]);
    }
}

/// The last directory ends the joined path.
proof fn lemma_last_start(ds: Seq<Seq<char>>)
    requires
        ds.len() > 0,
    ensures
        dir_start(ds, ds.len() - 1) + ds.last().len() == join_semicolon(ds).len(),
{
    reveal_strlit(";");
    reveal(dir_start);
    if ds.len() > 1 {
        assert(ds.take(ds.len() - 1) =~= ds.drop_last());
    }
}

/// Directories before the last start where they start without it.
proof fn lemma_dir_start_init(dirs: Seq<Seq<char>>, i: int)
    requires
        0 <= i < dirs.len() - 1,
    ensures
        dir_start(dirs, i) == dir_start(dirs.drop_last(), i),
{
    reveal(dir_start);
    assert(dirs.take(i) =~= dirs.drop_last().take(i));
}

/// The joined directories hold each directory where `dir_start` says, with a `;` before each
/// but the first.
#[verifier::spinoff_prover]
#[verifier::rlimit(50)]
proof fn lemma_join_holds_dirs(dirs: Seq<Seq<char>>)
    requires
        dirs.len() > 0,
    ensures
        forall|i: int|
            0 <= i < dirs.len() ==> occurs_at(join_semicolon(dirs), #[trigger] dirs[i], dir_start(dirs, i)),
        forall|i: int|
            #![trigger dir_start(dirs, i)]
            0 < i < dirs.len() ==> join_semicolon(dirs)[dir_start(dirs, i) - 1] == ';'
                && dir_start(dirs, i - 1) + dirs[i - 1].len() == dir_start(dirs, i) - 1,
    decreases dirs.len(),
{
    reveal_strlit(";");
    let j = join_semicolon(dirs);
    if dirs.len() == 1 {
        reveal(dir_start);
        assert(j.subrange(0, dirs[0].len() as int) =~= dirs[0]);
    } else {
        let init = dirs.drop_last();
        lemma_join_holds_dirs(init);
        let ji = join_semicolon(init);
        let n = dirs.len() - 1;
        assert(j == ji + ";"@ + dirs.last());
        assert(dir_start(dirs, n) == ji.len() + 1) by {
            reveal(dir_start);
            assert(dirs.take(n) =~= init);
        }
        lemma_last_start(init);
        assert forall|i: int| 0 <= i < dirs.len() implies occurs_at(
            j,
            #[trigger] dirs[i],
            dir_start(dirs, i),
        ) by {
            let k = dir_start(dirs, i);
            if i < n {
                lemma_dir_start_init(dirs, i);
                assert(init[i] == dirs[i]);
                assert(occurs_at(ji, init[i], dir_start(init, i)));
                assert(j.subrange(k, k + dirs[i].len()) =~= ji.subrange(k, k + dirs[i].len()));
            } else {
                assert(j.subrange(k, k + dirs[i].len()) =~= dirs.last());
            }
        }
        assert forall|i: int| #![trigger dir_start(dirs, i)] 0 < i < dirs.len() implies j[dir_start(
            dirs,
            i,
        ) - 1] == ';' && dir_start(dirs, i - 1) + dirs[i - 1].len() == dir_start(dirs, i) - 1 by {
            lemma_dir_start_init(dirs, i - 1);
            assert(init[i - 1] == dirs[i - 1]);
            if i < n {
                lemma_dir_start_init(dirs, i);
                assert(ji[dir_start(init, i) - 1] == ';');
                assert(j[dir_start(dirs, i) - 1] == ji[dir_start(dirs, i) - 1]);
            }
        }
    }
}

/// Builds the augmented search path: the Node.js install directories and the global npm
/// directory that exist come first, and the inherited `PATH` stays as a fallback. Returns
/// none when there is nothing to prepend.
pub fn augmented_path(dirs: &Vec<String>, inherited: Option<String>) -> (r: Option<String>)
    ensures
        opt_view(r) == search_path(strings_view(dirs@), opt_view(inherited)),
{
    if dirs.len() == 0 {
        return None;
    }
    let mut path = dirs[0].clone();
    let mut i: usize = 1;
    assert(strings_view(dirs@).take(1) =~= seq![dirs@[0]@]);
    while i < dirs.len()
        invariant
            1 <= i <= dirs.len(),
            path@ == join_semicolon(strings_view(dirs@).take(i as int)),
        decreases dirs.len() - i,
    {
        path.append(";");
        path.append(dirs[i].as_str());
        i += 1;
        assert(strings_view(dirs@).take(i as int).drop_last() =~= strings_view(dirs@).take(
            i - 1,
        ));
    }
    assert(strings_view(dirs@).take(i as int) =~= strings_view(dirs@));
    match inherited {
        Some(p) => {
            if p.as_str().is_empty() {
                Some(path)
            } else {
                path.append(";");
                path.append(p.as_str());
                Some(path)
            }
        },
        None => Some(path),
    }
}

/// The dsh web profile directory, as path components to join: `$DSH_HOME/profiles/web`
/// when `DSH_HOME` is set, otherwise `<home>/.dsh/profiles/web` with the home directory, or
/// `.` when that is unknown.
pub open spec fn profile_parts(dsh_home: Option<Seq<char>>, home: Option<Seq<char>>) -> Seq<
    Seq<char>,
> {
    match dsh_home {
        Some(d) => seq![d, "profiles"@, "web"@],
        None => seq![
            match home {
                Some(h) => h,
                None => "."@,
            },
            ".dsh"@,
            "profiles"@,
            "web"@,
        ],
    }
}

/// The components of the dsh web profile directory.
pub fn profile_dir_parts(dsh_home: Option<String>, home: Option<String>) -> (r: Vec<String>)
    ensures
        strings_view(r@) == profile_parts(opt_view(dsh_home), opt_view(home)),
{
    match dsh_home {
        Some(d) => {
            let ghost dv = d@;
            let r = vec![d, String::from_str("profiles"), String::from_str("web")];
            assert(strings_view(r@) =~= seq![dv, "profiles"@, "web"@]);
            r
        },
        None => {
            let h = match home {
                Some(h) => h,
                None => String::from_str("."),
            };
            let ghost hv = h@;
            let r = vec![h, String::from_str(".dsh"), String::from_str("profiles"), String::from_str("web")];
            assert(strings_view(r@) =~= seq![hv, ".dsh"@, "profiles"@, "web"@]);
            r
        },
    }
}

/// The name of the profile's manifest inside the profile directory.
pub fn manifest_file_name() -> (r: String)
    ensures
        r@ == "package.json"@,
{
    String::from_str("package.json")
}

/// `s` without leading white space.
pub open spec fn trim_start(s: Seq<char>) -> Seq<char>
    decreases s.len(),
{
    if s.len() > 0 && is_whitespace(s[0]) {
        trim_start(s.drop_first())
    } else {
        s
    }
}

/// `s` without trailing white space.
pub open spec fn trim_end(s: Seq<char>) -> Seq<char>
    decreases s.len(),
{
    if s.len() > 0 && is_whitespace(s.last()) {
        trim_end(s.drop_last())
    } else {
        s
    }
}

/// `s` without leading and trailing white space (`str::trim`).
pub open spec fn trim(s: Seq<char>) -> Seq<char> {
    trim_end(trim_start(s))
}

/// The characters of `s` without leading and trailing white space.
pub fn trim_string(s: &str) -> (r: String)
    ensures
        r@ == trim(s@),
{
    let v = chars_of(s);
    let n = v.len();
    let mut lo: usize = 0;
    assert(v@.subrange(0, n as int) =~= v@);
    while lo < n && char_is_whitespace(v[lo])
        invariant
            lo <= n == v.len(),
            trim_start(v@) == trim_start(v@.subrange(lo as int, n as int)),
        decreases n - lo,
    {
        assert(v@.subrange(lo as int, n as int).drop_first() =~= v@.subrange(lo + 1, n as int));
        lo += 1;
    }
    let mut hi: usize = n;
    while hi > lo && char_is_whitespace(v[hi - 1])
        invariant
            lo <= hi <= n == v.len(),
            trim(v@) == trim_end(v@.subrange(lo as int, hi as int)),
        decreases hi - lo,
    {
        assert(v@.subrange(lo as int, hi as int).drop_last() =~= v@.subrange(lo as int, hi - 1));
        hi -= 1;
    }
    string_from_range(&v, lo, hi)
}

/// What a finished command printed: none when it did not exit successfully, otherwise its
/// standard output, decoded leniently and trimmed.
pub fn captured_output(success: bool, stdout: &[u8]) -> (r: Option<String>)
    ensures
        r is Some <==> success,
        r matches Some(o) ==> o@ == trim(utf8_lossy(stdout@)),
{
    if !success {
        return None;
    }
    let text = decode_utf8_lossy(stdout);
    Some(trim_string(text.as_str()))
}

/// How many times to ask for the dsh version: on Windows a newly installed `.cmd` shim may
/// not be visible at once, so up to 5 attempts; elsewhere one.
pub fn dsh_version_attempts(windows: bool) -> (r: u32)
    ensures
        r == (if windows {
            5u32
        } else {
            1u32
        }),
{
    if windows {
        5
    } else {
        1
    }
}

} // verus!
