//! Which paths may be read and written, and what to say if not.

use vstd::prelude::*;
use vstd::string::*;

use crate::path::{
    extension, file_name, file_name_text, join_path, join_paths, name_extension_text, name_stem,
    name_stem_text, parent, parent_text,
};
use crate::text::{
    byte_count, byte_len, chars_of, contains, contains_text, decimal, decimal_text, ends_with,
    ends_with_text, find_chars, find_from, lemma_find_from, lower, lower_text, same, skip_text,
    split, split_text, starts_with, starts_with_text, strip_prefix, strip_prefix_text, trim,
    trim_text, views,
};
use crate::tool::{opt_view, Environment, EnvironmentView};

verus! {

// ---------------------------------------------------------------------
// Writing
// ---------------------------------------------------------------------

/// `path` is `prefix` or lies below it.
pub open spec fn under_path(path: Seq<char>, prefix: Seq<char>) -> bool {
    path == prefix || match strip_prefix(path, prefix) {
        Some(rest) => starts_with(rest, "/"@),
        None => false,
    }
}

pub fn has_path_prefix(path: &str, prefix: &str) -> (r: bool)
    ensures
        r == under_path(path@, prefix@),
{
    if same(path, prefix) {
        return true;
    }
    match strip_prefix_text(path, prefix) {
        Some(rest) => starts_with_text(rest.as_str(), "/"),
        None => false,
    }
}

/// Paths of the system that are never written.
pub open spec fn is_system_path(p: Seq<char>) -> bool {
    ||| p == "/etc/passwd"@
    ||| p == "/etc/shadow"@
    ||| under_path(p, "/bin"@)
    ||| under_path(p, "/sbin"@)
    ||| under_path(p, "/usr/bin"@)
    ||| under_path(p, "/usr/sbin"@)
    ||| under_path(p, "/var/run"@)
}

fn system_path(p: &str) -> (r: bool)
    ensures
        r == is_system_path(p@),
{
    same(p, "/etc/passwd") || same(p, "/etc/shadow") || has_path_prefix(p, "/bin")
        || has_path_prefix(p, "/sbin") || has_path_prefix(p, "/usr/bin")
        || has_path_prefix(p, "/usr/sbin") || has_path_prefix(p, "/var/run")
}

/// `input` with `~/` replaced by the home directory, if one is known.
pub open spec fn normalized(input: Seq<char>, home: Option<Seq<char>>) -> Seq<char> {
    match (strip_prefix(input, "~/"@), home) {
        (Some(rest), Some(dir)) => join_path(dir, rest),
        _ => input,
    }
}

fn normalize_path_string(input: &str, env: &Environment) -> (r: String)
    ensures
        r@ == normalized(input@, env@.home),
{
    match (strip_prefix_text(input, "~/"), &env.home) {
        (Some(rest), Some(dir)) => join_paths(dir.as_str(), rest.as_str()),
        _ => input.to_owned(),
    }
}

/// The directory that holds the agent's own files.
pub open spec fn hermes_dir(env: EnvironmentView) -> Seq<char> {
    match (env.hermes_home, env.home) {
        (Some(dir), _) => dir,
        (None, Some(home)) => join_path(home, ".perry_hermes"@),
        (None, None) => "~/.perry_hermes"@,
    }
}

/// The agent's own configuration file.
pub open spec fn config_path(env: EnvironmentView) -> Seq<char> {
    join_path(hermes_dir(env), "config.toml"@)
}

pub fn hermes_config_path(env: &Environment) -> (r: String)
    ensures
        r@ == config_path(env@),
{
    let base = match &env.hermes_home {
        Some(dir) => dir.clone(),
        None => match &env.home {
            Some(home) => join_paths(home.as_str(), ".perry_hermes"),
            None => "~/.perry_hermes".to_owned(),
        },
    };
    join_paths(base.as_str(), "config.toml")
}

/// Why `target`, written as `original`, is not to be written.
pub open spec fn sensitive_message(
    original: Seq<char>,
    target: Seq<char>,
    env: EnvironmentView,
) -> Option<Seq<char>> {
    let plain = normalized(original, env.home);
    if is_system_path(plain) || is_system_path(target) {
        Some(
            "Refusing to write to sensitive system path: "@ + original
                + "\nUse the terminal tool with sudo if you need to modify system files."@,
        )
    } else if plain == config_path(env) || target == config_path(env) {
        Some(
            "Refusing to write to Perry Hermes config file: "@ + original
                + "\nAgent cannot modify security-sensitive configuration. Edit ~/.perry_hermes/config.toml directly or use 'hermes config' instead."@,
        )
    } else {
        None
    }
}

pub fn sensitive_write_path_message(original: &str, resolved: &str, env: &Environment) -> (r:
    Option<String>)
    ensures
        opt_view(r) == sensitive_message(original@, resolved@, env@),
{
    let plain = normalize_path_string(original, env);
    if system_path(plain.as_str()) || system_path(resolved) {
        let mut out = "Refusing to write to sensitive system path: ".to_owned();
        out.append(original);
        out.append("\nUse the terminal tool with sudo if you need to modify system files.");
        return Some(out);
    }
    let config = hermes_config_path(env);
    if same(plain.as_str(), config.as_str()) || same(resolved, config.as_str()) {
        let mut out = "Refusing to write to Perry Hermes config file: ".to_owned();
        out.append(original);
        out.append(
            "\nAgent cannot modify security-sensitive configuration. Edit ~/.perry_hermes/config.toml directly or use 'hermes config' instead.",
        );
        return Some(out);
    }
    None
}

/// The profile whose directory the agent's own directory is.
pub open spec fn profile_of_home(hermes_home: Option<Seq<char>>) -> Option<Seq<char>> {
    match hermes_home {
        Some(dir) => match parent(dir) {
            Some(up) => if file_name(up) == Some("profiles"@) {
                file_name(dir)
            } else {
                None
            },
            None => None,
        },
        None => None,
    }
}

/// The profile that this session runs under.
pub open spec fn active_profile(env: EnvironmentView) -> Option<Seq<char>> {
    match env.profile {
        Some(name) => if name.len() > 0 {
            Some(name)
        } else {
            profile_of_home(env.hermes_home)
        },
        None => profile_of_home(env.hermes_home),
    }
}

fn current_profile_from_hermes_home(env: &Environment) -> (r: Option<String>)
    ensures
        opt_view(r) == profile_of_home(env@.hermes_home),
{
    match &env.hermes_home {
        Some(dir) => match parent_text(dir.as_str()) {
            Some(up) => match file_name_text(up.as_str()) {
                Some(name) => if same(name.as_str(), "profiles") {
                    file_name_text(dir.as_str())
                } else {
                    None
                },
                None => None,
            },
            None => None,
        },
        None => None,
    }
}

fn active_profile_name(env: &Environment) -> (r: Option<String>)
    ensures
        opt_view(r) == active_profile(env@),
{
    match &env.profile {
        Some(name) => if chars_of(name.as_str()).len() > 0 {
            Some(name.clone())
        } else {
            current_profile_from_hermes_home(env)
        },
        None => current_profile_from_hermes_home(env),
    }
}

/// Directories of a profile that other profiles do not write to.
pub open spec fn is_scoped_dir(name: Seq<char>) -> bool {
    name == "skills"@ || name == "plugins"@ || name == "cron"@ || name == "memories"@
}

/// Why `target` belongs to another profile.
pub open spec fn cross_profile_message(target: Seq<char>, env: EnvironmentView) -> Option<
    Seq<char>,
> {
    match find_from(target, "/profiles/"@, 0) {
        None => None,
        Some(at) => {
            let parts = split(target.skip(at + "/profiles/"@.len()), '/');
            if parts.len() < 3 || !is_scoped_dir(parts[1]) || active_profile(env) == Some(parts[0]) {
                None
            } else {
                Some(
                    "Refusing cross-profile write to Hermes "@ + parts[1] + " for profile '"@
                        + parts[0]
                        + "'. Pass cross_profile=true only after explicit user direction."@,
                )
            }
        },
    }
}

pub fn cross_profile_write_message(resolved: &str, env: &Environment) -> (r: Option<String>)
    ensures
        opt_view(r) == cross_profile_message(resolved@, env@),
{
    let cs = chars_of(resolved);
    let marker = chars_of("/profiles/");
    proof {
        lemma_find_from(resolved@, "/profiles/"@, 0);
    }
    let at: usize = match find_chars(&cs, &marker, 0) {
        Some(p) => p,
        None => {
            return None;
        },
    };
    let total: usize = cs.len();
    assert(at + marker@.len() <= total);
    let rest = skip_text(resolved, at + marker.len());
    let parts = split_text(rest.as_str(), '/');
    assert(parts@.len() == split(rest@, '/').len());
    if parts.len() < 3 {
        return None;
    }
    let profile = parts[0].as_str();
    let scoped = parts[1].as_str();
    assert(profile@ == split(rest@, '/')[0]);
    assert(scoped@ == split(rest@, '/')[1]);
    if !(same(scoped, "skills") || same(scoped, "plugins") || same(scoped, "cron") || same(
        scoped,
        "memories",
    )) {
        return None;
    }
    match active_profile_name(env) {
        Some(active) => if same(active.as_str(), profile) {
            return None;
        },
        None => {},
    }
    let mut out = "Refusing cross-profile write to Hermes ".to_owned();
    out.append(scoped);
    out.append(" for profile '");
    out.append(profile);
    out.append("'. Pass cross_profile=true only after explicit user direction.");
    Some(out)
}

/// Why `target`, written as `original`, is not to be written, if it is not.
pub open spec fn write_refusal(
    original: Seq<char>,
    target: Seq<char>,
    cross_profile: bool,
    env: EnvironmentView,
) -> Option<Seq<char>> {
    match sensitive_message(original, target, env) {
        Some(m) => Some(m),
        None => if cross_profile {
            None
        } else {
            cross_profile_message(target, env)
        },
    }
}

pub fn refuse_write(original: &str, resolved: &str, cross_profile: bool, env: &Environment) -> (r:
    Option<String>)
    ensures
        opt_view(r) == write_refusal(original@, resolved@, cross_profile, env@),
{
    match sensitive_write_path_message(original, resolved, env) {
        Some(m) => Some(m),
        None => if cross_profile {
            None
        } else {
            cross_profile_write_message(resolved, env)
        },
    }
}

/// What `read_file` answers about a file that has not changed.
pub const READ_DEDUP_STATUS_MESSAGE: &'static str =
    "File unchanged since last read. The content from the earlier read_file result in this conversation is still current — refer to that instead of re-reading.";

/// Whether `content` is that answer, alone or with little around it.
pub open spec fn is_status_text(content: Seq<char>) -> bool {
    let bare = trim(content);
    let status = READ_DEDUP_STATUS_MESSAGE@;
    bare.len() > 0 && (bare == status || contains(bare, status) && byte_count(bare) <= 2
        * byte_count(status))
}

pub fn is_internal_file_status_text(content: &str) -> (r: bool)
    ensures
        r == is_status_text(content@),
{
    let bare = trim_text(content);
    let status = READ_DEDUP_STATUS_MESSAGE;
    if chars_of(bare.as_str()).len() == 0 {
        return false;
    }
    if same(bare.as_str(), status) {
        return true;
    }
    let n: usize = byte_len(bare.as_str());
    contains_text(bare.as_str(), status) && n / 2 + n % 2 <= byte_len(status)
}

// ---------------------------------------------------------------------
// Reading
// ---------------------------------------------------------------------

/// Devices whose reading blocks or never ends.
pub open spec fn is_device(p: Seq<char>) -> bool {
    ||| p == "/dev/zero"@
    ||| p == "/dev/urandom"@
    ||| p == "/dev/random"@
    ||| p == "/dev/full"@
    ||| p == "/dev/stdin"@
    ||| p == "/dev/tty"@
    ||| p == "/dev/console"@
    ||| p == "/dev/stdout"@
    ||| p == "/dev/stderr"@
    ||| p == "/dev/fd/0"@
    ||| p == "/dev/fd/1"@
    ||| p == "/dev/fd/2"@
}

fn device(p: &str) -> (r: bool)
    ensures
        r == is_device(p@),
{
    same(p, "/dev/zero") || same(p, "/dev/urandom") || same(p, "/dev/random") || same(p,
        "/dev/full") || same(p, "/dev/stdin") || same(p, "/dev/tty") || same(p,
        "/dev/console") || same(p, "/dev/stdout") || same(p, "/dev/stderr") || same(p,
        "/dev/fd/0") || same(p, "/dev/fd/1") || same(p, "/dev/fd/2")
}

/// Process files that show secrets or memory layout.
pub open spec fn is_process_file(p: Seq<char>) -> bool {
    &&& starts_with(p, "/proc/"@)
    &&& {
        ||| ends_with(p, "/fd/0"@)
        ||| ends_with(p, "/fd/1"@)
        ||| ends_with(p, "/fd/2"@)
        ||| ends_with(p, "/environ"@)
        ||| ends_with(p, "/cmdline"@)
        ||| ends_with(p, "/maps"@)
    }
}

fn process_file(p: &str) -> (r: bool)
    ensures
        r == is_process_file(p@),
{
    starts_with_text(p, "/proc/") && (ends_with_text(p, "/fd/0") || ends_with_text(p,
        "/fd/1") || ends_with_text(p, "/fd/2") || ends_with_text(p, "/environ") ||
        ends_with_text(p, "/cmdline") || ends_with_text(p, "/maps"))
}

/// Why `literal` is not to be read. `canonical` is the path with its links
/// followed, if it exists.
pub open spec fn blocked_message(literal: Seq<char>, canonical: Option<Seq<char>>) -> Option<
    Seq<char>,
> {
    let device = is_device(literal) || match canonical {
        Some(c) => is_device(c),
        None => false,
    };
    let process = match canonical {
        Some(c) => is_process_file(c),
        None => false,
    };
    if device {
        Some(
            "Cannot read '"@ + literal
                + "': this is a device file that would block or produce infinite output."@,
        )
    } else if process {
        Some(
            "Cannot read '"@ + literal
                + "': this path can leak credentials or memory layout."@,
        )
    } else {
        None
    }
}

pub fn blocked_path_message(literal: &str, canonical: &Option<String>) -> (r: Option<String>)
    ensures
        opt_view(r) == blocked_message(literal@, opt_view(*canonical)),
{
    let is_dev = device(literal) || match canonical {
        Some(c) => device(c.as_str()),
        None => false,
    };
    if is_dev {
        let mut out = "Cannot read '".to_owned();
        out.append(literal);
        out.append("': this is a device file that would block or produce infinite output.");
        return Some(out);
    }
    let leaks = match canonical {
        Some(c) => process_file(c.as_str()),
        None => false,
    };
    if leaks {
        let mut out = "Cannot read '".to_owned();
        out.append(literal);
        out.append("': this path can leak credentials or memory layout.");
        return Some(out);
    }
    None
}

/// Extensions of files that hold no text.
pub open spec fn names_binary(e: Seq<char>) -> bool {
    ||| e == "png"@
    ||| e == "jpg"@
    ||| e == "jpeg"@
    ||| e == "gif"@
    ||| e == "webp"@
    ||| e == "heic"@
    ||| e == "avif"@
    ||| e == "ico"@
    ||| e == "pdf"@
    ||| e == "zip"@
    ||| e == "tar"@
    ||| e == "gz"@
    ||| e == "tgz"@
    ||| e == "bz2"@
    ||| e == "xz"@
    ||| e == "7z"@
    ||| e == "rar"@
    ||| e == "exe"@
    ||| e == "dll"@
    ||| e == "so"@
    ||| e == "dylib"@
    ||| e == "class"@
    ||| e == "pyc"@
    ||| e == "wasm"@
    ||| e == "mp4"@
    ||| e == "mp3"@
    ||| e == "wav"@
    ||| e == "flac"@
    ||| e == "ogg"@
    ||| e == "m4a"@
    ||| e == "ttf"@
    ||| e == "otf"@
    ||| e == "woff"@
    ||| e == "woff2"@
    ||| e == "eot"@
    ||| e == "psd"@
    ||| e == "ai"@
    ||| e == "sketch"@
    ||| e == "fig"@
    ||| e == "blend"@
    ||| e == "glb"@
    ||| e == "gltf"@
    ||| e == "obj"@
    ||| e == "fbx"@
    ||| e == "stl"@
    ||| e == "3ds"@
    ||| e == "dae"@
    ||| e == "db"@
    ||| e == "sqlite"@
    ||| e == "sqlite3"@
    ||| e == "bin"@
    ||| e == "dat"@
    ||| e == "iso"@
    ||| e == "dmg"@
    ||| e == "deb"@
    ||| e == "rpm"@
    ||| e == "svg"@
}

pub fn is_binary_extension(ext: &str) -> (r: bool)
    ensures
        r == names_binary(lower(ext@)),
{
    let low = lower_text(ext);
    let e = low.as_str();
    same(e, "png") || same(e, "jpg") || same(e, "jpeg") || same(e, "gif") || same(e, "webp")
        || same(e, "heic") || same(e, "avif") || same(e, "ico") || same(e, "pdf") || same(e,
        "zip") || same(e, "tar") || same(e, "gz") || same(e, "tgz") || same(e, "bz2") ||
        same(e, "xz") || same(e, "7z") || same(e, "rar") || same(e, "exe") || same(e, "dll")
        || same(e, "so") || same(e, "dylib") || same(e, "class") || same(e, "pyc") ||
        same(e, "wasm") || same(e, "mp4") || same(e, "mp3") || same(e, "wav") || same(e,
        "flac") || same(e, "ogg") || same(e, "m4a") || same(e, "ttf") || same(e, "otf") ||
        same(e, "woff") || same(e, "woff2") || same(e, "eot") || same(e, "psd") || same(e,
        "ai") || same(e, "sketch") || same(e, "fig") || same(e, "blend") || same(e, "glb")
        || same(e, "gltf") || same(e, "obj") || same(e, "fbx") || same(e, "stl") || same(e,
        "3ds") || same(e, "dae") || same(e, "db") || same(e, "sqlite") || same(e, "sqlite3")
        || same(e, "bin") || same(e, "dat") || same(e, "iso") || same(e, "dmg") || same(e,
        "deb") || same(e, "rpm") || same(e, "svg")
}

/// The letters and digits of a text.
pub open spec fn letters(s: Seq<char>) -> Set<char> {
    Set::new(|c: char| s.contains(c) && is_alnum(c))
}

pub open spec fn is_alnum(c: char) -> bool {
    '0' <= c <= '9' || 'A' <= c <= 'Z' || 'a' <= c <= 'z'
}

fn has_char(cs: &Vec<char>, c: char) -> (r: bool)
    ensures
        r == cs@.contains(c),
{
    let mut i: usize = 0;
    while i < cs.len()
        invariant
            i <= cs@.len(),
            forall|k: int| 0 <= k < i ==> cs@[k] != c,
        decreases cs.len() - i,
    {
        if cs[i] == c {
            return true;
        }
        i += 1;
    }
    false
}

proof fn lemma_push_contains(s: Seq<char>, c: char, d: char)
    ensures
        s.push(c).contains(d) <==> (s.contains(d) || d == c),
{
    if s.contains(d) {
        let k = choose|k: int| 0 <= k < s.len() && s[k] == d;
        assert(s.push(c)[k] == d);
    }
    assert(s.push(c)[s.len() as int] == c);
    if s.push(c).contains(d) && d != c {
        let k = choose|k: int| 0 <= k < s.push(c).len() && s.push(c)[k] == d;
        assert(s[k] == d);
    }
}

fn letters_of(s: &str) -> (r: Vec<char>)
    ensures
        r@.no_duplicates(),
        r@.to_set() == letters(s@),
{
    let cs = chars_of(s);
    let mut out: Vec<char> = Vec::new();
    let mut i: usize = 0;
    while i < cs.len()
        invariant
            i <= cs@.len(),
            cs@ == s@,
            out@.no_duplicates(),
            forall|c: char|
                #[trigger] out@.contains(c) <==> (cs@.take(i as int).contains(c) && is_alnum(c)),
        decreases cs.len() - i,
    {
        let c = cs[i];
        let ghost before = out@;
        let fresh = (('0' <= c && c <= '9') || ('A' <= c && c <= 'Z') || ('a' <= c && c <= 'z'))
            && !has_char(&out, c);
        if fresh {
            out.push(c);
        }
        proof {
            let now = cs@.take(i + 1);
            assert(now =~= cs@.take(i as int).push(c));
            assert forall|d: char|
                #[trigger] out@.contains(d) <==> (now.contains(d) && is_alnum(d)) by {
                lemma_push_contains(cs@.take(i as int), c, d);
                lemma_push_contains(before, c, d);
            }
        }
        i += 1;
    }
    assert(cs@.take(cs@.len() as int) =~= cs@);
    assert forall|c: char| #[trigger] out@.to_set().contains(c) <==> letters(s@).contains(c) by {
        assert(out@.contains(c) <==> (s@.contains(c) && is_alnum(c)));
    }
    assert(out@.to_set() =~= letters(s@));
    out
}

/// The stem of the last component, or nothing.
pub open spec fn stem_of(p: Seq<char>) -> Seq<char> {
    match file_name(p) {
        Some(name) => name_stem(name),
        None => Seq::empty(),
    }
}

/// The extension of the last component, or nothing.
pub open spec fn extension_of(p: Seq<char>) -> Seq<char> {
    match extension(p) {
        Some(ext) => ext,
        None => Seq::empty(),
    }
}

fn stem_text(p: &str) -> (r: String)
    ensures
        r@ == stem_of(p@),
{
    match file_name_text(p) {
        Some(name) => name_stem_text(name.as_str()),
        None => String::new(),
    }
}

fn extension_or_empty(p: &str) -> (r: String)
    ensures
        r@ == extension_of(p@),
{
    match file_name_text(p) {
        Some(name) => match name_extension_text(name.as_str()) {
            Some(ext) => ext,
            None => String::new(),
        },
        None => String::new(),
    }
}

/// At least two in five of the letters and digits of the richer name are
/// in both names.
pub open spec fn shares_letters(a: Seq<char>, b: Seq<char>) -> bool {
    let common = letters(a).intersect(letters(b)).len();
    let larger = if letters(a).len() >= letters(b).len() {
        letters(a).len()
    } else {
        letters(b).len()
    };
    larger > 0 && common * 5 >= larger * 2
}

fn shares_letters_text(a: &str, b: &str) -> (r: bool)
    ensures
        r == shares_letters(a@, b@),
{
    let x = letters_of(a);
    let y = letters_of(b);
    let mut common: Vec<char> = Vec::new();
    let mut i: usize = 0;
    while i < x.len()
        invariant
            i <= x@.len(),
            x@.no_duplicates(),
            common@.len() <= i,
            common@.no_duplicates(),
            forall|c: char|
                #[trigger] common@.contains(c) <==> (x@.take(i as int).contains(c) && y@.contains(c)),
        decreases x.len() - i,
    {
        let c = x[i];
        let ghost before = common@;
        let both = has_char(&y, c);
        proof {
            assert(!x@.take(i as int).contains(c)) by {
                if x@.take(i as int).contains(c) {
                    let k = choose|k: int| 0 <= k < i && x@.take(i as int)[k] == c;
                    assert(x@[k] == x@[i as int]);
                }
            }
            assert(!before.contains(c));
        }
        if both {
            common.push(c);
        }
        proof {
            let now = x@.take(i + 1);
            assert(now =~= x@.take(i as int).push(c));
            assert forall|d: char|
                #[trigger] common@.contains(d) <==> (now.contains(d) && y@.contains(d)) by {
                lemma_push_contains(x@.take(i as int), c, d);
                lemma_push_contains(before, c, d);
            }
        }
        i += 1;
    }
    proof {
        assert(x@.take(x@.len() as int) =~= x@);
        x@.unique_seq_to_set();
        y@.unique_seq_to_set();
        common@.unique_seq_to_set();
        assert forall|c: char|
            #[trigger] common@.to_set().contains(c) <==> letters(a@).intersect(
                letters(b@),
            ).contains(c) by {
            assert(common@.contains(c) <==> (x@.contains(c) && y@.contains(c)));
            assert(x@.to_set().contains(c) <==> letters(a@).contains(c));
            assert(y@.to_set().contains(c) <==> letters(b@).contains(c));
        }
        assert(common@.to_set() =~= letters(a@).intersect(letters(b@)));
    }
    let larger: usize = if x.len() >= y.len() {
        x.len()
    } else {
        y.len()
    };
    larger > 0 && (common.len() as u128) * 5 >= (larger as u128) * 2
}

/// How well the name `name` fits the wanted name `target`, both in lower
/// case; 0 if it does not.
pub open spec fn similarity(target: Seq<char>, name: Seq<char>) -> int {
    if name == target {
        100
    } else if stem_of(target).len() > 0 && stem_of(name) == stem_of(target) {
        90
    } else if starts_with(name, target) || starts_with(target, name) {
        70
    } else if contains(name, target) {
        60
    } else if contains(target, name) && byte_count(name) > 2 {
        40
    } else if extension_of(target).len() > 0 && extension_of(name) == extension_of(target)
        && shares_letters(target, name) {
        30
    } else {
        0
    }
}

fn similarity_of(target: &str, name: &str) -> (r: u8)
    ensures
        r == similarity(target@, name@),
{
    if same(name, target) {
        return 100;
    }
    let stem = stem_text(target);
    if chars_of(stem.as_str()).len() > 0 && same(stem_text(name).as_str(), stem.as_str()) {
        return 90;
    }
    if starts_with_text(name, target) || starts_with_text(target, name) {
        return 70;
    }
    if contains_text(name, target) {
        return 60;
    }
    if contains_text(target, name) && byte_len(name) > 2 {
        return 40;
    }
    let ext = extension_or_empty(target);
    if chars_of(ext.as_str()).len() > 0 && same(extension_or_empty(name).as_str(), ext.as_str())
        && shares_letters_text(target, name) {
        return 30;
    }
    0
}

/// The names among the first `n` whose similarity to `target` is `score`,
/// in their order, as paths in `dir`.
pub open spec fn with_score(
    target: Seq<char>,
    names: Seq<Seq<char>>,
    dir: Seq<char>,
    score: int,
    n: int,
) -> Seq<Seq<char>>
    decreases n,
{
    if n <= 0 {
        Seq::empty()
    } else {
        let rest = with_score(target, names, dir, score, n - 1);
        if similarity(target, lower(names[n - 1])) == score {
            rest.push(join_path(dir, names[n - 1]))
        } else {
            rest
        }
    }
}

/// The paths in `dir` whose names are like `target`: the most similar
/// first, equally similar ones in their order, at most five.
pub open spec fn similar_files(target: Seq<char>, names: Seq<Seq<char>>, dir: Seq<char>) -> Seq<
    Seq<char>,
> {
    let t = lower(target);
    let n = names.len() as int;
    let ranked = with_score(t, names, dir, 100, n) + with_score(t, names, dir, 90, n) + with_score(
        t,
        names,
        dir,
        70,
        n,
    ) + with_score(t, names, dir, 60, n) + with_score(t, names, dir, 40, n) + with_score(
        t,
        names,
        dir,
        30,
        n,
    );
    if ranked.len() > 5 {
        ranked.take(5)
    } else {
        ranked
    }
}

fn add_with_score(out: &mut Vec<String>, target: &str, names: &Vec<String>, dir: &str, score: u8)
    ensures
        views(final(out)@) == views(old(out)@) + with_score(
            target@,
            views(names@),
            dir@,
            score as int,
            names@.len() as int,
        ),
{
    let ghost start = views(out@);
    let ghost all = views(names@);
    let mut i: usize = 0;
    assert(start + Seq::<Seq<char>>::empty() =~= start);
    while i < names.len()
        invariant
            i <= names@.len(),
            all == views(names@),
            views(out@) == start + with_score(target@, all, dir@, score as int, i as int),
        decreases names.len() - i,
    {
        let low = lower_text(names[i].as_str());
        assert(all[i as int] == names@[i as int]@);
        let ghost before = views(out@);
        let ghost rest = with_score(target@, all, dir@, score as int, i as int);
        if similarity_of(target, low.as_str()) == score {
            let full = join_paths(dir, names[i].as_str());
            out.push(full);
            assert(views(out@) =~= before.push(full@));
            assert(start + rest.push(full@) =~= (start + rest).push(full@));
        }
        i += 1;
    }
}

/// Up to five files of the directory of `path` whose names are like its
/// own. `names` is what that directory holds.
pub fn suggest_similar_files(path: &str, names: &Vec<String>) -> (r: Vec<String>)
    ensures
        views(r@) == match (parent(path@), file_name(path@)) {
            (Some(dir), Some(target)) => similar_files(target, views(names@), dir),
            _ => Seq::empty(),
        },
{
    let mut out: Vec<String> = Vec::new();
    assert(views(out@) =~= Seq::<Seq<char>>::empty());
    let dir = match parent_text(path) {
        Some(d) => d,
        None => {
            return out;
        },
    };
    let name = match file_name_text(path) {
        Some(n) => n,
        None => {
            return out;
        },
    };
    let target = lower_text(name.as_str());
    add_with_score(&mut out, target.as_str(), names, dir.as_str(), 100);
    assert(views(out@) =~= with_score(
        target@,
        views(names@),
        dir@,
        100,
        names@.len() as int,
    ));
    add_with_score(&mut out, target.as_str(), names, dir.as_str(), 90);
    add_with_score(&mut out, target.as_str(), names, dir.as_str(), 70);
    add_with_score(&mut out, target.as_str(), names, dir.as_str(), 60);
    add_with_score(&mut out, target.as_str(), names, dir.as_str(), 40);
    add_with_score(&mut out, target.as_str(), names, dir.as_str(), 30);
    let ghost ranked = views(out@);
    if out.len() > 5 {
        out.truncate(5);
        assert(views(out@) =~= ranked.take(5));
    }
    out
}

// ---------------------------------------------------------------------
// Replacing a file
// ---------------------------------------------------------------------

/// The file beside `target` that its new content goes to before it takes
/// the place of `target`.
pub open spec fn temp_path(target: Seq<char>, pid: u32) -> Result<Seq<char>, Seq<char>> {
    match parent(target) {
        None => Err("write target has no parent directory"@),
        Some(dir) => Ok(
            join_path(
                dir,
                match file_name(target) {
                    Some(name) => ".perry-hermes-tmp-"@ + name + "."@ + decimal(pid as nat),
                    None => ".perry-hermes-tmp-"@ + decimal(pid as nat),
                },
            ),
        ),
    }
}

pub fn temp_sibling(target: &str, pid: u32) -> (r: Result<String, String>)
    ensures
        match r {
            Ok(p) => temp_path(target@, pid) == Ok::<Seq<char>, Seq<char>>(p@),
            Err(m) => temp_path(target@, pid) == Err::<Seq<char>, Seq<char>>(m@),
        },
{
    match parent_text(target) {
        None => Err("write target has no parent directory".to_owned()),
        Some(dir) => {
            let mut name = ".perry-hermes-tmp-".to_owned();
            match file_name_text(target) {
                Some(n) => {
                    name.append(n.as_str());
                    name.append(".");
                },
                None => {},
            }
            name.append(decimal_text(pid as u64).as_str());
            Ok(join_paths(dir.as_str(), name.as_str()))
        },
    }
}

// ---------------------------------------------------------------------
// Laws
// ---------------------------------------------------------------------

/// What is under a path is the path itself or goes on behind a separator.
pub proof fn law_under_a_path(path: Seq<char>, prefix: Seq<char>)
    ensures
        under_path(path, prefix) <==> path == prefix || exists|rest: Seq<char>|
            path == #[trigger] (prefix + seq!['/'] + rest),
{
    reveal_strlit("/");
    assert("/"@ =~= seq!['/']);
    if under_path(path, prefix) && path != prefix {
        let behind = path.skip(prefix.len() as int);
        let rest = behind.skip(1);
        assert(behind.take(1) == "/"@);
        assert(behind[0] == behind.take(1)[0]);
        assert(path =~= prefix + seq!['/'] + rest) by {
            assert(path =~= path.take(prefix.len() as int) + behind);
            assert(behind =~= seq!['/'] + rest);
        }
    }
    if exists|rest: Seq<char>| path == #[trigger] (prefix + seq!['/'] + rest) {
        let rest = choose|rest: Seq<char>| path == #[trigger] (prefix + seq!['/'] + rest);
        assert(path.take(prefix.len() as int) =~= prefix);
        let behind = path.skip(prefix.len() as int);
        assert(behind.take(1) =~= seq!['/']);
    }
}

/// System files and programs are never written, whatever the call allows,
/// and however the path is written.
pub proof fn law_system_paths_are_refused(
    original: Seq<char>,
    target: Seq<char>,
    rest: Seq<char>,
    cross_profile: bool,
    env: EnvironmentView,
)
    requires
        target == "/etc/passwd"@ || target == "/etc/shadow"@ || target == "/bin"@ + seq!['/'] + rest
            || target == "/sbin"@ + seq!['/'] + rest || target == "/usr/bin"@ + seq!['/'] + rest
            || target == "/usr/sbin"@ + seq!['/'] + rest || target == "/var/run"@ + seq!['/']
            + rest,
    ensures
        write_refusal(original, target, cross_profile, env) is Some,
        env.home is None ==> write_refusal(target, original, cross_profile, env) is Some,
{
    law_under_a_path(target, "/bin"@);
    law_under_a_path(target, "/sbin"@);
    law_under_a_path(target, "/usr/bin"@);
    law_under_a_path(target, "/usr/sbin"@);
    law_under_a_path(target, "/var/run"@);
}

/// The agent never writes its own configuration file.
pub proof fn law_own_settings_are_refused(
    original: Seq<char>,
    dir: Seq<char>,
    cross_profile: bool,
    env: EnvironmentView,
)
    requires
        env.hermes_home == Some(dir) || (env.hermes_home is None && env.home is Some && dir
            == join_path(env.home->0, ".perry_hermes"@)),
    ensures
        write_refusal(original, join_path(dir, "config.toml"@), cross_profile, env) is Some,
{
}

/// A path that is neither the system's nor the agent's settings, and that
/// lies in no profile, may be written.
pub proof fn law_other_paths_are_allowed(
    target: Seq<char>,
    cross_profile: bool,
    env: EnvironmentView,
)
    requires
        !is_system_path(target),
        target != config_path(env),
        !starts_with(target, "~/"@),
        !contains(target, "/profiles/"@),
    ensures
        write_refusal(target, target, cross_profile, env) is None,
{
}

/// Another profile's skills, plugins, jobs and memories are written only if
/// the call says so; the own ones may be.
pub proof fn law_other_profiles_are_guarded(
    original: Seq<char>,
    target: Seq<char>,
    at: int,
    env: EnvironmentView,
)
    requires
        sensitive_message(original, target, env) is None,
        find_from(target, "/profiles/"@, 0) == Some(at),
    ensures
        write_refusal(original, target, true, env) is None,
        ({
            let parts = split(target.skip(at + 10), '/');
            let guarded = parts.len() >= 3 && (parts[1] == "skills"@ || parts[1] == "plugins"@
                || parts[1] == "cron"@ || parts[1] == "memories"@);
            &&& write_refusal(original, target, false, env) is Some <==> guarded && active_profile(
                env,
            ) != Some(parts[0])
        }),
{
    reveal_strlit("/profiles/");
    assert("/profiles/"@.len() == 10);
}

/// The profile of a session is the one it was given; without one it is that
/// of its own directory, if that lies among the profiles.
pub proof fn law_active_profile(env: EnvironmentView, d: Seq<char>, name: Seq<char>)
    requires
        d.len() == 0 || d.last() == '/',
        crate::path::is_plain_name(name),
    ensures
        env.profile matches Some(p) ==> (p.len() > 0 ==> active_profile(env) == Some(p)),
        env.profile is None && env.hermes_home is None ==> active_profile(env) is None,
        env.profile is None && env.hermes_home == Some(join_path(d + "profiles"@, name))
            ==> active_profile(env) == Some(name),
{
    reveal_strlit("profiles");
    let p = "profiles"@;
    assert(p.len() == 8);
    assert(!p.contains('/')) by {
        if p.contains('/') {
            let k = choose|k: int| 0 <= k < p.len() && p[k] == '/';
            assert(p[k] != '/');
        }
    }
    crate::path::law_last_component(d, p, name);
}

/// A device is not read, also behind a link, and neither are the files of a
/// process that show its secrets; other paths are.
pub proof fn law_dangerous_files_are_not_read(
    literal: Seq<char>,
    canonical: Seq<char>,
    pid: Seq<char>,
)
    ensures
        is_device(literal) ==> blocked_message(literal, None) is Some && blocked_message(
            literal,
            Some(canonical),
        ) is Some,
        is_device(canonical) ==> blocked_message(literal, Some(canonical)) is Some,
        is_device("/dev/zero"@) && is_device("/dev/random"@) && is_device("/dev/stdin"@)
            && is_device("/dev/tty"@),
        blocked_message(literal, Some("/proc/"@ + pid + "/environ"@)) is Some,
        blocked_message(literal, Some("/proc/"@ + pid + "/maps"@)) is Some,
        blocked_message(literal, Some("/proc/"@ + pid + "/cmdline"@)) is Some,
        !starts_with(literal, "/dev/"@) ==> blocked_message(literal, None) is None,
        !starts_with(literal, "/dev/"@) && !starts_with(canonical, "/dev/"@) && !starts_with(
            canonical,
            "/proc/"@,
        ) ==> blocked_message(literal, Some(canonical)) is None,
{
    let a = "/proc/"@ + pid + "/environ"@;
    let b = "/proc/"@ + pid + "/maps"@;
    let c = "/proc/"@ + pid + "/cmdline"@;
    let n = "/proc/"@.len() as int;
    assert(a.take(n) =~= "/proc/"@ && b.take(n) =~= "/proc/"@ && c.take(n) =~= "/proc/"@);
    assert(a.skip(a.len() - "/environ"@.len()) =~= "/environ"@);
    assert(b.skip(b.len() - "/maps"@.len()) =~= "/maps"@);
    assert(c.skip(c.len() - "/cmdline"@.len()) =~= "/cmdline"@);
    lemma_devices(literal);
    lemma_devices(canonical);
}

proof fn lemma_devices(p: Seq<char>)
    ensures
        is_device(p) ==> starts_with(p, "/dev/"@),
{
    reveal_strlit("/dev/");
    reveal_strlit("/dev/zero");
    reveal_strlit("/dev/urandom");
    reveal_strlit("/dev/random");
    reveal_strlit("/dev/full");
    reveal_strlit("/dev/stdin");
    reveal_strlit("/dev/tty");
    reveal_strlit("/dev/console");
    reveal_strlit("/dev/stdout");
    reveal_strlit("/dev/stderr");
    reveal_strlit("/dev/fd/0");
    reveal_strlit("/dev/fd/1");
    reveal_strlit("/dev/fd/2");
    if is_device(p) {
        assert(p.take(5) =~= "/dev/"@);
    }
}

/// A name is the more like another the more of it is the same: the name
/// itself first, then one with the same stem, then one that starts the same
/// way, then one that holds the other. Names that share nothing are not
/// alike.
pub proof fn law_similarity_ranks_names(target: Seq<char>, name: Seq<char>)
    ensures
        similarity(target, name) == 100 <==> name == target,
        0 <= similarity(target, name) <= 100,
        name != target && stem_of(target).len() > 0 && stem_of(name) == stem_of(target)
            ==> similarity(target, name) == 90,
        starts_with(name, target) || starts_with(target, name) ==> similarity(target, name) >= 70,
        contains(name, target) ==> similarity(target, name) >= 60,
        contains(target, name) && byte_count(name) > 2 ==> similarity(target, name) >= 40,
        similarity(target, name) > 0 ==> {
            ||| stem_of(name) == stem_of(target)
            ||| starts_with(name, target)
            ||| starts_with(target, name)
            ||| contains(name, target)
            ||| contains(target, name)
            ||| extension_of(name) == extension_of(target)
        },
{
}

/// Whether a path is that of one of the first `n` names whose likeness to
/// the wanted one is `score`.
pub open spec fn is_scored(
    target: Seq<char>,
    names: Seq<Seq<char>>,
    dir: Seq<char>,
    score: int,
    n: int,
    path: Seq<char>,
) -> bool {
    exists|k: int|
        0 <= k < n && similarity(target, lower(#[trigger] names[k])) == score && path == join_path(
            dir,
            names[k],
        )
}

proof fn lemma_with_score(
    target: Seq<char>,
    names: Seq<Seq<char>>,
    dir: Seq<char>,
    score: int,
    n: int,
)
    requires
        0 <= n <= names.len(),
    ensures
        forall|i: int|
            0 <= i < with_score(target, names, dir, score, n).len() ==> is_scored(
                target,
                names,
                dir,
                score,
                n,
                #[trigger] with_score(target, names, dir, score, n)[i],
            ),
        forall|k: int|
            0 <= k < n && similarity(target, lower(#[trigger] names[k])) == score ==> with_score(
                target,
                names,
                dir,
                score,
                n,
            ).contains(join_path(dir, names[k])),
    decreases n,
{
    if n > 0 {
        lemma_with_score(target, names, dir, score, n - 1);
        let before = with_score(target, names, dir, score, n - 1);
        let now = with_score(target, names, dir, score, n);
        assert forall|i: int| 0 <= i < now.len() implies is_scored(
            target,
            names,
            dir,
            score,
            n,
            #[trigger] now[i],
        ) by {
            if i < before.len() {
                assert(now[i] == before[i]);
                assert(is_scored(target, names, dir, score, n - 1, before[i]));
                let k = choose|k: int|
                    0 <= k < n - 1 && similarity(target, lower(#[trigger] names[k])) == score
                        && before[i] == join_path(dir, names[k]);
                assert(similarity(target, lower(names[k])) == score);
            } else {
                assert(similarity(target, lower(names[n - 1])) == score);
                assert(now[i] == join_path(dir, names[n - 1]));
            }
        }
        assert forall|k: int|
            0 <= k < n && similarity(target, lower(#[trigger] names[k])) == score implies now.contains(
            join_path(dir, names[k]),
        ) by {
            let p = join_path(dir, names[k]);
            if k < n - 1 {
                assert(before.contains(p));
                let w = choose|w: int| 0 <= w < before.len() && before[w] == p;
                assert(now[w] == p);
            } else {
                assert(now[now.len() - 1] == p);
            }
        }
    }
}

/// At most five files are proposed, each one of the directory with a name
/// that is like the wanted one. A file of just that name, letter case aside,
/// is among the first, and as long as there is room none is left out.
pub proof fn law_similar_files_are_proposed(
    target: Seq<char>,
    names: Seq<Seq<char>>,
    dir: Seq<char>,
    i: int,
    k: int,
)
    ensures
        similar_files(target, names, dir).len() <= 5,
        0 <= i < similar_files(target, names, dir).len() ==> exists|m: int|
            #![trigger names[m]]
            0 <= m < names.len() && similar_files(target, names, dir)[i] == join_path(dir, names[m])
                && similarity(lower(target), lower(names[m])) > 0,
        0 <= k < names.len() && lower(names[k]) == lower(target) ==> similar_files(
            target,
            names,
            dir,
        ).len() > 0 && exists|m: int|
            #![trigger names[m]]
            0 <= m < names.len() && similar_files(target, names, dir)[0] == join_path(dir, names[m])
                && lower(names[m]) == lower(target),
        0 <= k < names.len() && similarity(lower(target), lower(names[k])) > 0 && similar_files(
            target,
            names,
            dir,
        ).len() < 5 ==> similar_files(target, names, dir).contains(join_path(dir, names[k])),
{
    let t = lower(target);
    let n = names.len() as int;
    lemma_with_score(t, names, dir, 100, n);
    lemma_with_score(t, names, dir, 90, n);
    lemma_with_score(t, names, dir, 70, n);
    lemma_with_score(t, names, dir, 60, n);
    lemma_with_score(t, names, dir, 40, n);
    lemma_with_score(t, names, dir, 30, n);
    let a = with_score(t, names, dir, 100, n);
    let b = with_score(t, names, dir, 90, n);
    let c = with_score(t, names, dir, 70, n);
    let d = with_score(t, names, dir, 60, n);
    let e = with_score(t, names, dir, 40, n);
    let f = with_score(t, names, dir, 30, n);
    let all = a + b + c + d + e + f;
    let shown = similar_files(target, names, dir);
    let n1 = a.len() as int;
    let n2 = n1 + b.len();
    let n3 = n2 + c.len();
    let n4 = n3 + d.len();
    let n5 = n4 + e.len();
    assert forall|x: int| 0 <= x < all.len() implies all[x] == (if x < n1 {
        a[x]
    } else if x < n2 {
        b[x - n1]
    } else if x < n3 {
        c[x - n2]
    } else if x < n4 {
        d[x - n3]
    } else if x < n5 {
        e[x - n4]
    } else {
        f[x - n5]
    }) by {}
    if 0 <= i < shown.len() {
        assert(shown[i] == all[i]);
        let score = if i < n1 {
            100int
        } else if i < n2 {
            90
        } else if i < n3 {
            70
        } else if i < n4 {
            60
        } else if i < n5 {
            40
        } else {
            30
        };
        assert(is_scored(t, names, dir, score, n, all[i]));
    }
    if 0 <= k < n {
        let s = similarity(t, lower(names[k]));
        let p = join_path(dir, names[k]);
        if s == 100 {
            assert(a.contains(p));
            assert(shown[0] == a[0]);
            assert(is_scored(t, names, dir, 100, n, a[0]));
            let m = choose|m: int|
                0 <= m < n && similarity(t, lower(#[trigger] names[m])) == 100 && a[0] == join_path(
                    dir,
                    names[m],
                );
            assert(lower(names[m]) == t);
        }
        if s > 0 && shown.len() < 5 {
            assert(shown == all);
            assert(s == 100 || s == 90 || s == 70 || s == 60 || s == 40 || s == 30);
            if s == 100 {
                let w = choose|w: int| 0 <= w < a.len() && a[w] == p;
                assert(all[w] == p);
            } else if s == 90 {
                assert(b.contains(p));
                let w = choose|w: int| 0 <= w < b.len() && b[w] == p;
                assert(all[n1 + w] == p);
            } else if s == 70 {
                assert(c.contains(p));
                let w = choose|w: int| 0 <= w < c.len() && c[w] == p;
                assert(all[n2 + w] == p);
            } else if s == 60 {
                assert(d.contains(p));
                let w = choose|w: int| 0 <= w < d.len() && d[w] == p;
                assert(all[n3 + w] == p);
            } else if s == 40 {
                assert(e.contains(p));
                let w = choose|w: int| 0 <= w < e.len() && e[w] == p;
                assert(all[n4 + w] == p);
            } else {
                assert(f.contains(p));
                let w = choose|w: int| 0 <= w < f.len() && f[w] == p;
                assert(all[n5 + w] == p);
            }
        }
    }
}

/// New content waits beside the file that it replaces, under a name that
/// holds the file's own and the process, so that it is never the file.
pub proof fn law_new_content_waits_beside_the_file(
    d: Seq<char>,
    dir: Seq<char>,
    name: Seq<char>,
    pid: u32,
)
    requires
        d.len() == 0 || d.last() == '/',
        crate::path::is_plain_name(dir),
        crate::path::is_plain_name(name),
    ensures
        temp_path(join_path(d + dir, name), pid) == Ok::<Seq<char>, Seq<char>>(
            join_path(d + dir, ".perry-hermes-tmp-"@ + name + "."@ + decimal(pid as nat)),
        ),
        temp_path(join_path(d + dir, name), pid) != Ok::<Seq<char>, Seq<char>>(
            join_path(d + dir, name),
        ),
{
    crate::path::law_last_component(d, dir, name);
    reveal_strlit(".perry-hermes-tmp-");
    let t = ".perry-hermes-tmp-"@ + name + "."@ + decimal(pid as nat);
    assert(t[0] == '.');
    assert(name.contains(name[0]));
    crate::path::law_joined_path(d + dir, name);
    crate::path::law_joined_path(d + dir, t);
    assert(t.len() > name.len());
}

/// Two names share their letters if what they have in common is two fifths
/// of the letters of either; which of the two comes first does not matter.
/// Names with the same extension that do are alike.
pub proof fn law_shared_letters_make_names_alike(a: Seq<char>, b: Seq<char>)
    ensures
        shares_letters(a, b) == shares_letters(b, a),
        shares_letters(a, b) ==> 5 * letters(a).intersect(letters(b)).len() >= 2 * letters(a).len()
            && 5 * letters(a).intersect(letters(b)).len() >= 2 * letters(b).len(),
        letters(a).len() > 0 && 5 * letters(a).intersect(letters(b)).len() >= 2 * letters(a).len()
            && 5 * letters(a).intersect(letters(b)).len() >= 2 * letters(b).len() ==> shares_letters(
            a,
            b,
        ),
        extension_of(a).len() > 0 && extension_of(b) == extension_of(a) && shares_letters(a, b)
            ==> similarity(a, b) >= 30,
{
    assert(letters(a).intersect(letters(b)) =~= letters(b).intersect(letters(a)));
}

/// An empty profile is none, and a directory that does not lie among the
/// profiles has none.
pub proof fn law_no_profile(env: EnvironmentView, d: Seq<char>, up: Seq<char>, name: Seq<char>)
    requires
        d.len() == 0 || d.last() == '/',
        crate::path::is_plain_name(up),
        crate::path::is_plain_name(name),
        up != "profiles"@,
    ensures
        env.profile matches Some(p) ==> (p.len() == 0 ==> active_profile(env) == active_profile(
            EnvironmentView { profile: None, ..env },
        )),
        env.profile is None && env.hermes_home == Some(join_path(d + up, name)) ==> active_profile(
            env,
        ) is None,
{
    crate::path::law_last_component(d, up, name);
}

/// The extension of a path is that of its last name.
pub proof fn law_extension_is_that_of_the_name(d: Seq<char>, name: Seq<char>)
    requires
        d.len() == 0 || d.last() == '/',
        crate::path::is_plain_name(name),
    ensures
        crate::path::name_extension(name) matches Some(ext) ==> extension_of(d + name) == ext,
        crate::path::name_extension(name) is None ==> extension_of(d + name).len() == 0,
        stem_of(d + name) == crate::path::name_stem(name),
{
    crate::path::law_last_component(d, name, name);
}

/// A refusal names the path that is refused, or the profile and the part of
/// it that would be written.
pub proof fn law_refusals_name_the_path(
    literal: Seq<char>,
    canonical: Option<Seq<char>>,
    target: Seq<char>,
    env: EnvironmentView,
)
    ensures
        blocked_message(literal, canonical) matches Some(m) ==> crate::context::summary::holds(
            m,
            literal,
        ),
        cross_profile_message(target, env) matches Some(m) ==> {
            let at = find_from(target, "/profiles/"@, 0)->0;
            let parts = split(target.skip(at + "/profiles/"@.len()), '/');
            crate::context::summary::holds(m, parts[0]) && crate::context::summary::holds(
                m,
                parts[1],
            )
        },
{
    crate::context::summary::lemma_holds(
        "Cannot read '"@,
        literal,
        "': this is a device file that would block or produce infinite output."@,
    );
    crate::context::summary::lemma_holds(
        "Cannot read '"@,
        literal,
        "': this path can leak credentials or memory layout."@,
    );
    if let Some(m) = cross_profile_message(target, env) {
        let at = find_from(target, "/profiles/"@, 0)->0;
        let parts = split(target.skip(at + "/profiles/"@.len()), '/');
        let start = "Refusing cross-profile write to Hermes "@;
        let mid = " for profile '"@;
        let end = "'. Pass cross_profile=true only after explicit user direction."@;
        crate::context::summary::lemma_holds(start, parts[1], mid + parts[0] + end);
        assert(start + parts[1] + (mid + parts[0] + end) =~= m);
        crate::context::summary::lemma_holds(start + parts[1] + mid, parts[0], end);
    }
}

/// A write that is refused is told with the path that was given.
pub proof fn law_refused_write_names_the_path(
    original: Seq<char>,
    target: Seq<char>,
    env: EnvironmentView,
)
    ensures
        sensitive_message(original, target, env) matches Some(m) ==> crate::context::summary::holds(
            m,
            original,
        ),
{
    crate::context::summary::lemma_holds(
        "Refusing to write to sensitive system path: "@,
        original,
        "\nUse the terminal tool with sudo if you need to modify system files."@,
    );
    crate::context::summary::lemma_holds(
        "Refusing to write to Perry Hermes config file: "@,
        original,
        "\nAgent cannot modify security-sensitive configuration. Edit ~/.perry_hermes/config.toml directly or use 'hermes config' instead."@,
    );
}

} // verus!
