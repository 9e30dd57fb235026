//! The environment a sandboxed process receives: one variable per input,
//! named after the input key, with collisions refused; and the fixed
//! bubblewrap arguments of the JavaScript worker.
use vstd::prelude::*;

use crate::scheduler::env_lookup;
use crate::text::{concat, debug_quoted, debug_str, is_ascii_alnum, is_ascii_lower, push_char, str_eq};

verus! {

pub open spec fn upper(c: char) -> char {
    if is_ascii_lower(c) {
        ((c as u32) - 32) as char
    } else {
        c
    }
}

/// The suffix built from a key's characters: ASCII letters and digits,
/// upper-cased, with `_` where a run of other characters separated two of
/// them; and whether such a run is pending at the end.
pub open spec fn env_suffix(key: Seq<char>) -> (Seq<char>, bool)
    decreases key.len(),
{
    if key.len() == 0 {
        (Seq::empty(), false)
    } else {
        let (suffix, pending) = env_suffix(key.drop_last());
        let c = key.last();
        if is_ascii_alnum(c) {
            let sep = if pending && suffix.len() > 0 {
                suffix.push('_')
            } else {
                suffix
            };
            (sep.push(upper(c)), false)
        } else {
            (suffix, true)
        }
    }
}

/// The variable that carries an input.
pub open spec fn input_env_name_spec(key: Seq<char>) -> Seq<char> {
    "RUNX_INPUT_"@ + env_suffix(key).0
}

/// The variable that carries an input: `RUNX_INPUT_` and the key's ASCII
/// letters and digits, upper-cased, other runs becoming one `_`.
pub fn input_env_name(key: &str) -> (r: String)
    ensures
        r@ == input_env_name_spec(key@),
{
    let chars = crate::text::chars_of(key);
    let mut suffix = String::new();
    let mut pending = false;
    let mut i: usize = 0;
    while i < chars.len()
        invariant
            i <= chars@.len(),
            chars@ == key@,
            (suffix@, pending) == env_suffix(key@.subrange(0, i as int)),
        decreases chars.len() - i,
    {
        assert(key@.subrange(0, i + 1).drop_last() =~= key@.subrange(0, i as int));
        let c = chars[i];
        if (c >= 'a' && c <= 'z') || (c >= 'A' && c <= 'Z') || (c >= '0' && c <= '9') {
            if pending && suffix.as_str().unicode_len() > 0 {
                push_char(&mut suffix, '_');
            }
            let u = if c >= 'a' && c <= 'z' {
                ((c as u32) - 32) as u8 as char
            } else {
                c
            };
            assert(u == upper(c)) by {
                if c >= 'a' && c <= 'z' {
                    assert((c as u32) - 32 < 256);
                }
            }
            push_char(&mut suffix, u);
            pending = false;
        } else {
            pending = true;
        }
        i = i + 1;
    }
    assert(key@.subrange(0, key@.len() as int) =~= key@);
    concat("RUNX_INPUT_", suffix.as_str())
}

/// Where an input's variable is recorded: variable name and input key.
pub open spec fn registered(names: Seq<(String, String)>, env_name: Seq<char>) -> Option<Seq<char>> {
    env_lookup(names, env_name)
}

pub open spec fn collision_message(prior: Seq<char>, input: Seq<char>, env_name: Seq<char>) -> Seq<char> {
    "input keys "@ + debug_quoted(prior) + " and "@ + debug_quoted(input)
        + " collide on environment variable "@ + env_name
}

/// Records that `env_name` carries `input`; two inputs may not share a
/// variable.
pub fn register_input_env_name(names: &mut Vec<(String, String)>, env_name: &str, input: &str) -> (r:
    Result<(), String>)
    ensures
        match registered(old(names)@, env_name@) {
            Some(prior) => r matches Err(m) && m@ == collision_message(prior, input@, env_name@)
                && final(names)@ == old(names)@,
            None => r is Ok && final(names)@.len() == old(names)@.len() + 1 && final(names)@.subrange(
                0,
                old(names)@.len() as int,
            ) == old(names)@ && final(names)@.last().0@ == env_name@ && final(names)@.last().1@
                == input@,
        },
{
    let mut i: usize = 0;
    assert(names@.subrange(0, names@.len() as int) =~= names@);
    while i < names.len()
        invariant
            i <= names@.len(),
            names@ == old(names)@,
            env_lookup(names@, env_name@) == env_lookup(
                names@.subrange(i as int, names@.len() as int),
                env_name@,
            ),
        decreases names.len() - i,
    {
        assert(names@.subrange(i as int, names@.len() as int).drop_first() =~= names@.subrange(
            i + 1,
            names@.len() as int,
        ));
        if str_eq(names[i].0.as_str(), env_name) {
            let a = concat("input keys ", debug_str(names[i].1.as_str()).as_str());
            let b = concat(a.as_str(), " and ");
            let c = concat(b.as_str(), debug_str(input).as_str());
            let d = concat(c.as_str(), " collide on environment variable ");
            return Err(concat(d.as_str(), env_name));
        }
        i = i + 1;
    }
    names.push((env_name.to_owned(), input.to_owned()));
    Ok(())
}

/// An input's variable may not replace one the declared environment sets.
pub fn reject_runtime_input_env_collision(
    environment: &Vec<(String, String)>,
    name: &str,
    input: &str,
) -> (r: Result<(), String>)
    ensures
        env_lookup(environment@, name@) is None <==> r is Ok,
        r matches Err(m) ==> m@ == "input "@ + debug_quoted(input@)
            + " runtime environment variable "@ + name@ + " collides with declared environment"@,
{
    let mut i: usize = 0;
    assert(environment@.subrange(0, environment@.len() as int) =~= environment@);
    while i < environment.len()
        invariant
            i <= environment@.len(),
            env_lookup(environment@, name@) == env_lookup(
                environment@.subrange(i as int, environment@.len() as int),
                name@,
            ),
        decreases environment.len() - i,
    {
        assert(environment@.subrange(i as int, environment@.len() as int).drop_first()
            =~= environment@.subrange(i + 1, environment@.len() as int));
        if str_eq(environment[i].0.as_str(), name) {
            let a = concat("input ", debug_str(input).as_str());
            let b = concat(a.as_str(), " runtime environment variable ");
            let c = concat(b.as_str(), name);
            return Err(concat(c.as_str(), " collides with declared environment"));
        }
        i = i + 1;
    }
    Ok(())
}

/// The input owning a variable among registered (variable, input) pairs.
pub open spec fn name_owner(names: Seq<(Seq<char>, Seq<char>)>, n: Seq<char>) -> Option<Seq<char>>
    decreases names.len(),
{
    if names.len() == 0 {
        None
    } else if names[0].0 == n {
        Some(names[0].1)
    } else {
        name_owner(names.drop_first(), n)
    }
}

pub open spec fn pair_views(names: Seq<(String, String)>) -> Seq<(Seq<char>, Seq<char>)> {
    names.map_values(|p: (String, String)| (p.0@, p.1@))
}

proof fn lemma_registered_view(names: Seq<(String, String)>, n: Seq<char>)
    ensures
        registered(names, n) == name_owner(pair_views(names), n),
    decreases names.len(),
{
    if names.len() > 0 {
        assert(pair_views(names).drop_first() =~= pair_views(names.drop_first()));
        lemma_registered_view(names.drop_first(), n);
    }
}

pub open spec fn runtime_collision_message(input: Seq<char>, name: Seq<char>) -> Seq<char> {
    "input "@ + debug_quoted(input) + " runtime environment variable "@ + name
        + " collides with declared environment"@
}

/// How naming the variables of keys `i..` ends, given the variables named
/// so far: `None` when every key gets its two variables, else the first
/// collision, with another key or with the declared environment.
pub open spec fn input_env_outcome(
    keys: Seq<Seq<char>>,
    env: Seq<(String, String)>,
    i: int,
    names: Seq<(Seq<char>, Seq<char>)>,
) -> Option<Seq<char>>
    decreases keys.len() - i,
{
    if i < 0 || i >= keys.len() {
        None
    } else {
        let k = keys[i];
        let n = input_env_name_spec(k);
        let p = n + "_PATH"@;
        match name_owner(names, n) {
            Some(prior) => Some(collision_message(prior, k, n)),
            None => match name_owner(names.push((n, k)), p) {
                Some(prior) => Some(collision_message(prior, k, p)),
                None => if env_lookup(env, n) is Some {
                    Some(runtime_collision_message(k, n))
                } else if env_lookup(env, p) is Some {
                    Some(runtime_collision_message(k, p))
                } else {
                    input_env_outcome(keys, env, i + 1, names.push((n, k)).push((p, k)))
                },
            },
        }
    }
}

proof fn lemma_owner_push(s: Seq<(Seq<char>, Seq<char>)>, x: (Seq<char>, Seq<char>), n: Seq<char>)
    ensures
        name_owner(s.push(x), n) == (if name_owner(s, n) is Some {
            name_owner(s, n)
        } else if x.0 == n {
            Some(x.1)
        } else {
            None
        }),
    decreases s.len(),
{
    if s.len() > 0 {
        assert(s.push(x)[0] == s[0]);
        assert(s.push(x).drop_first() =~= s.drop_first().push(x));
        lemma_owner_push(s.drop_first(), x, n);
    } else {
        assert(s.push(x)[0] == x);
        assert(s.push(x).drop_first() =~= Seq::<(Seq<char>, Seq<char>)>::empty());
        assert(name_owner(s.push(x).drop_first(), n) is None);
    }
}

/// The value and path variables of key `j`.
pub open spec fn value_var(keys: Seq<Seq<char>>, j: int) -> Seq<char> {
    input_env_name_spec(keys[j])
}

pub open spec fn path_var(keys: Seq<Seq<char>>, j: int) -> Seq<char> {
    input_env_name_spec(keys[j]) + "_PATH"@
}

proof fn lemma_outcome_distinct(
    keys: Seq<Seq<char>>,
    env: Seq<(String, String)>,
    i: int,
    names: Seq<(Seq<char>, Seq<char>)>,
)
    requires
        0 <= i,
        input_env_outcome(keys, env, i, names) is None,
    ensures
        forall|j: int|
            i <= j < keys.len() ==> name_owner(names, #[trigger] value_var(keys, j)) is None && name_owner(
                names,
                path_var(keys, j),
            ) is None && env_lookup(env, value_var(keys, j)) is None && env_lookup(env, path_var(keys, j))
                is None,
        forall|a: int, b: int|
            i <= a < b < keys.len() ==> #[trigger] value_var(keys, a) != #[trigger] value_var(keys, b)
                && path_var(keys, a) != path_var(keys, b) && value_var(keys, a) != path_var(keys, b)
                && path_var(keys, a) != value_var(keys, b),
    decreases keys.len() - i,
{
    if i < keys.len() {
        let k = keys[i];
        let n = value_var(keys, i);
        let p = path_var(keys, i);
        let next = names.push((n, k)).push((p, k));
        lemma_outcome_distinct(keys, env, i + 1, next);
        lemma_owner_push(names, (n, k), p);
        assert forall|j: int| i < j < keys.len() implies name_owner(names, #[trigger] value_var(keys, j))
            is None && name_owner(names, path_var(keys, j)) is None && value_var(keys, j) != n
            && value_var(keys, j) != p && path_var(keys, j) != n && path_var(keys, j) != p by {
            lemma_owner_push(names.push((n, k)), (p, k), value_var(keys, j));
            lemma_owner_push(names, (n, k), value_var(keys, j));
            lemma_owner_push(names.push((n, k)), (p, k), path_var(keys, j));
            lemma_owner_push(names, (n, k), path_var(keys, j));
        }
        assert forall|a: int, b: int|
            i <= a < b < keys.len() implies #[trigger] value_var(keys, a) != #[trigger] value_var(keys, b)
            && path_var(keys, a) != path_var(keys, b) && value_var(keys, a) != path_var(keys, b)
            && path_var(keys, a) != value_var(keys, b) by {
            if a == i {
                assert(name_owner(names, value_var(keys, b)) is None);
            }
        }
    }
}

/// Input variables never collide: when every key gets its variables, the
/// value and `_PATH` variables of different keys are all different, and
/// none of them is set by the declared environment.
pub proof fn lemma_input_env_names_distinct(keys: Seq<Seq<char>>, env: Seq<(String, String)>)
    requires
        input_env_outcome(keys, env, 0, Seq::empty()) is None,
    ensures
        forall|j: int|
            0 <= j < keys.len() ==> env_lookup(env, #[trigger] value_var(keys, j)) is None && env_lookup(
                env,
                path_var(keys, j),
            ) is None,
        forall|a: int, b: int|
            0 <= a < b < keys.len() ==> #[trigger] value_var(keys, a) != #[trigger] value_var(keys, b)
                && path_var(keys, a) != path_var(keys, b) && value_var(keys, a) != path_var(keys, b)
                && path_var(keys, a) != value_var(keys, b),
{
    lemma_outcome_distinct(keys, env, 0, Seq::empty());
}

/// The input variables for a list of input keys: each key gets its
/// variable and a `_PATH` variable, none of which may be shared between
/// keys or set by the declared environment. Returns, per key, the value
/// variable and the path variable; the first collision is reported.
pub fn input_env_names(keys: &Vec<String>, environment: &Vec<(String, String)>) -> (r: Result<
    Vec<(String, String)>,
    String,
>)
    ensures
        match input_env_outcome(crate::text::string_views(keys@), environment@, 0, Seq::empty()) {
            Some(m) => r matches Err(e) && e@ == m,
            None => r is Ok,
        },
        r matches Ok(v) ==> v@.len() == keys@.len() && forall|i: int|
            0 <= i < keys@.len() ==> (#[trigger] v@[i]).0@ == input_env_name_spec(keys@[i]@)
                && v@[i].1@ == input_env_name_spec(keys@[i]@) + "_PATH"@ && env_lookup(
                environment@,
                v@[i].0@,
            ) is None && env_lookup(environment@, v@[i].1@) is None,
{
    let ghost kv = crate::text::string_views(keys@);
    let mut names: Vec<(String, String)> = Vec::new();
    let mut out: Vec<(String, String)> = Vec::new();
    let mut i: usize = 0;
    assert(pair_views(names@) =~= Seq::<(Seq<char>, Seq<char>)>::empty());
    while i < keys.len()
        invariant
            i <= keys@.len(),
            kv == crate::text::string_views(keys@),
            out@.len() == i,
            forall|j: int|
                0 <= j < i ==> (#[trigger] out@[j]).0@ == input_env_name_spec(keys@[j]@)
                    && out@[j].1@ == input_env_name_spec(keys@[j]@) + "_PATH"@ && env_lookup(
                    environment@,
                    out@[j].0@,
                ) is None && env_lookup(environment@, out@[j].1@) is None,
            input_env_outcome(kv, environment@, 0, Seq::empty()) == input_env_outcome(
                kv,
                environment@,
                i as int,
                pair_views(names@),
            ),
        decreases keys.len() - i,
    {
        let key = keys[i].as_str();
        let env_name = input_env_name(key);
        let path_env_name = concat(env_name.as_str(), "_PATH");
        let ghost pv = pair_views(names@);
        let ghost n = env_name@;
        let ghost p = path_env_name@;
        assert(kv[i as int] == key@);
        proof {
            lemma_registered_view(names@, n);
        }
        match register_input_env_name(&mut names, env_name.as_str(), key) {
            Err(e) => {
                return Err(e);
            },
            Ok(()) => {},
        }
        assert(pair_views(names@) =~= pv.push((n, key@)));
        proof {
            lemma_registered_view(names@, p);
        }
        match register_input_env_name(&mut names, path_env_name.as_str(), key) {
            Err(e) => {
                return Err(e);
            },
            Ok(()) => {},
        }
        assert(pair_views(names@) =~= pv.push((n, key@)).push((p, key@)));
        match reject_runtime_input_env_collision(environment, env_name.as_str(), key) {
            Err(e) => {
                return Err(e);
            },
            Ok(()) => {},
        }
        match reject_runtime_input_env_collision(environment, path_env_name.as_str(), key) {
            Err(e) => {
                return Err(e);
            },
            Ok(()) => {},
        }
        out.push((env_name, path_env_name));
        i = i + 1;
    }
    Ok(out)
}

/// The readonly host paths a dynamically linked command needs inside
/// bubblewrap.
pub open spec fn runtime_readonly_paths() -> Seq<Seq<char>> {
    seq!["/usr"@, "/bin"@, "/sbin"@, "/lib"@, "/lib64"@, "/etc/ld.so.cache"@]
}

/// The bubblewrap arguments of the JavaScript worker.
pub open spec fn bubblewrap_args_spec(worker: Seq<char>) -> Seq<Seq<char>> {
    seq![
        "--unshare-all"@,
        "--die-with-parent"@,
        "--proc"@,
        "/proc"@,
        "--dev"@,
        "/dev"@,
        "--tmpfs"@,
        "/tmp"@,
        "--ro-bind-try"@,
        "/usr"@,
        "/usr"@,
        "--ro-bind-try"@,
        "/bin"@,
        "/bin"@,
        "--ro-bind-try"@,
        "/sbin"@,
        "/sbin"@,
        "--ro-bind-try"@,
        "/lib"@,
        "/lib"@,
        "--ro-bind-try"@,
        "/lib64"@,
        "/lib64"@,
        "--ro-bind-try"@,
        "/etc/ld.so.cache"@,
        "/etc/ld.so.cache"@,
        "--ro-bind"@,
        worker,
        worker,
        "--chdir"@,
        "/tmp"@,
        "--"@,
        worker,
    ]
}

/// The worker runs alone in fresh namespaces with a private `/tmp`, the
/// host runtime read-only and its own file bound read-only.
pub fn bubblewrap_args(worker_path: &str) -> (r: Vec<String>)
    ensures
        crate::text::string_views(r@) == bubblewrap_args_spec(worker_path@),
{
    let mut args: Vec<String> = Vec::new();
    args.push("--unshare-all".to_owned());
    args.push("--die-with-parent".to_owned());
    args.push("--proc".to_owned());
    args.push("/proc".to_owned());
    args.push("--dev".to_owned());
    args.push("/dev".to_owned());
    args.push("--tmpfs".to_owned());
    args.push("/tmp".to_owned());
    let paths: Vec<&str> = vec!["/usr", "/bin", "/sbin", "/lib", "/lib64", "/etc/ld.so.cache"];
    let mut i: usize = 0;
    while i < paths.len()
        invariant
            i <= paths@.len(),
            paths@.len() == 6,
            forall|k: int| 0 <= k < 6 ==> #[trigger] paths@[k]@ == runtime_readonly_paths()[k],
            args@.len() == 8 + 3 * i,
            forall|k: int| 0 <= k < 8 ==> #[trigger] args@[k]@ == bubblewrap_args_spec(worker_path@)[k],
            forall|k: int|
                8 <= k < 8 + 3 * i ==> #[trigger] args@[k]@ == bubblewrap_args_spec(worker_path@)[k],
        decreases paths.len() - i,
    {
        args.push("--ro-bind-try".to_owned());
        args.push(paths[i].to_owned());
        args.push(paths[i].to_owned());
        i = i + 1;
    }
    args.push("--ro-bind".to_owned());
    args.push(worker_path.to_owned());
    args.push(worker_path.to_owned());
    args.push("--chdir".to_owned());
    args.push("/tmp".to_owned());
    args.push("--".to_owned());
    args.push(worker_path.to_owned());
    assert(crate::text::string_views(args@) =~= bubblewrap_args_spec(worker_path@));
    args
}

proof fn lemma_env_lookup_update(env: Seq<(String, String)>, i: int, key: Seq<char>, entry: (String, String), k: Seq<char>)
    requires
        0 <= i < env.len(),
        env[i].0@ == key,
        entry.0@ == key,
        forall|j: int| 0 <= j < i ==> #[trigger] env[j].0@ != key,
    ensures
        env_lookup(env.update(i, entry), k) == if k == key {
            Some(entry.1@)
        } else {
            env_lookup(env, k)
        },
    decreases env.len(),
{
    let updated = env.update(i, entry);
    if i == 0 {
        assert(updated[0] == entry);
        assert(updated.drop_first() =~= env.drop_first());
    } else {
        assert(updated[0] == env[0]);
        assert(env[0].0@ != key);
        assert(updated.drop_first() =~= env.drop_first().update(i - 1, entry));
        assert forall|j: int| 0 <= j < i - 1 implies #[trigger] env.drop_first()[j].0@ != key by {
            assert(env.drop_first()[j] == env[j + 1]);
        }
        lemma_env_lookup_update(env.drop_first(), i - 1, key, entry, k);
    }
}

proof fn lemma_env_lookup_push(env: Seq<(String, String)>, entry: (String, String), k: Seq<char>)
    requires
        env_lookup(env, entry.0@) is None,
    ensures
        env_lookup(env.push(entry), k) == if k == entry.0@ {
            Some(entry.1@)
        } else {
            env_lookup(env, k)
        },
    decreases env.len(),
{
    let pushed = env.push(entry);
    if env.len() == 0 {
        assert(pushed[0] == entry);
        assert(pushed.drop_first() =~= Seq::<(String, String)>::empty());
        assert(env_lookup(pushed.drop_first(), k) is None);
    } else {
        assert(pushed[0] == env[0]);
        assert(env[0].0@ != entry.0@);
        assert(pushed.drop_first() =~= env.drop_first().push(entry));
        lemma_env_lookup_push(env.drop_first(), entry, k);
    }
}

/// Sets `key` to `value`, replacing its value if it is set.
pub fn env_set(env: &mut Vec<(String, String)>, key: &str, value: String)
    ensures
        forall|k: Seq<char>| #[trigger] env_lookup(final(env)@, k) == if k == key@ {
            Some(value@)
        } else {
            env_lookup(old(env)@, k)
        },
{
    let mut i: usize = 0;
    assert(env@.subrange(0, env@.len() as int) =~= env@);
    while i < env.len()
        invariant
            i <= env@.len(),
            env@ == old(env)@,
            forall|j: int| 0 <= j < i ==> #[trigger] env@[j].0@ != key@,
            env_lookup(env@, key@) == env_lookup(env@.subrange(i as int, env@.len() as int), key@),
        decreases env.len() - i,
    {
        assert(env@.subrange(i as int, env@.len() as int).drop_first() =~= env@.subrange(
            i + 1,
            env@.len() as int,
        ));
        if str_eq(env[i].0.as_str(), key) {
            let entry = (key.to_owned(), value);
            proof {
                assert forall|k: Seq<char>| #[trigger] env_lookup(env@.update(i as int, entry), k) == if k == key@ {
                    Some(entry.1@)
                } else {
                    env_lookup(env@, k)
                } by {
                    lemma_env_lookup_update(env@, i as int, key@, entry, k);
                }
            }
            env.set(i, entry);
            return;
        }
        i = i + 1;
    }
    let entry = (key.to_owned(), value);
    proof {
        assert forall|k: Seq<char>| #[trigger] env_lookup(env@.push(entry), k) == if k == key@ {
            Some(entry.1@)
        } else {
            env_lookup(env@, k)
        } by {
            lemma_env_lookup_push(env@, entry, k);
        }
    }
    env.push(entry);
}

/// The temporary-directory variables a private sandbox `/tmp` sets.
pub fn set_private_tmp_env(env: &mut Vec<(String, String)>, private_tmp: &str)
    ensures
        forall|k: Seq<char>| #[trigger] env_lookup(final(env)@, k) == if k == "TMPDIR"@ || k == "TMP"@ || k == "TEMP"@ {
            Some(private_tmp@)
        } else {
            env_lookup(old(env)@, k)
        },
{
    env_set(env, "TMPDIR", private_tmp.to_owned());
    env_set(env, "TMP", private_tmp.to_owned());
    env_set(env, "TEMP", private_tmp.to_owned());
}

/// The isolation profile a sandbox declares.
#[derive(Clone, Copy, Debug, PartialEq, Eq)]
pub enum SandboxProfile {
    Readonly,
    WorkspaceWrite,
    Network,
    UnrestrictedLocalDev,
}

/// Where a sandboxed command starts.
#[derive(Clone, Copy, Debug, PartialEq, Eq)]
pub enum CwdPolicy {
    SkillDirectory,
    Workspace,
    Custom,
}

/// The profile named by a declaration, if it names one.
pub open spec fn profile_named(v: Seq<char>) -> Option<SandboxProfile> {
    if v == "readonly"@ {
        Some(SandboxProfile::Readonly)
    } else if v == "workspace-write"@ {
        Some(SandboxProfile::WorkspaceWrite)
    } else if v == "network"@ {
        Some(SandboxProfile::Network)
    } else if v == "unrestricted-local-dev"@ {
        Some(SandboxProfile::UnrestrictedLocalDev)
    } else {
        None
    }
}

/// Reads `sandbox.profile`: one of the four profiles.
pub fn required_sandbox_profile(value: &str) -> (r: Result<SandboxProfile, String>)
    ensures
        match profile_named(value@) {
            Some(p) => r == Ok::<SandboxProfile, String>(p),
            None => r matches Err(m) && m@
                == "sandbox.profile must be readonly, workspace-write, network, or unrestricted-local-dev."@,
        },
{
    if str_eq(value, "readonly") {
        Ok(SandboxProfile::Readonly)
    } else if str_eq(value, "workspace-write") {
        Ok(SandboxProfile::WorkspaceWrite)
    } else if str_eq(value, "network") {
        Ok(SandboxProfile::Network)
    } else if str_eq(value, "unrestricted-local-dev") {
        Ok(SandboxProfile::UnrestrictedLocalDev)
    } else {
        Err(
            "sandbox.profile must be readonly, workspace-write, network, or unrestricted-local-dev.".to_owned(),
        )
    }
}

/// The working-directory policy named by a declaration, if it names one.
pub open spec fn cwd_policy_named(v: Seq<char>) -> Option<CwdPolicy> {
    if v == "skill-directory"@ {
        Some(CwdPolicy::SkillDirectory)
    } else if v == "workspace"@ {
        Some(CwdPolicy::Workspace)
    } else if v == "custom"@ {
        Some(CwdPolicy::Custom)
    } else {
        None
    }
}

/// Reads the optional `sandbox.cwd_policy`.
pub fn optional_cwd_policy(value: Option<&str>) -> (r: Result<Option<CwdPolicy>, String>)
    ensures
        match value {
            None => r == Ok::<Option<CwdPolicy>, String>(None),
            Some(v) => match cwd_policy_named(v@) {
                Some(p) => r == Ok::<Option<CwdPolicy>, String>(Some(p)),
                None => r matches Err(m) && m@
                    == "sandbox.cwd_policy must be skill-directory, workspace, or custom."@,
            },
        },
{
    match value {
        None => Ok(None),
        Some(v) => {
            if str_eq(v, "skill-directory") {
                Ok(Some(CwdPolicy::SkillDirectory))
            } else if str_eq(v, "workspace") {
                Ok(Some(CwdPolicy::Workspace))
            } else if str_eq(v, "custom") {
                Ok(Some(CwdPolicy::Custom))
            } else {
                Err("sandbox.cwd_policy must be skill-directory, workspace, or custom.".to_owned())
            }
        },
    }
}

/// The platform mechanism that enforces a sandbox.
#[derive(Clone, Debug, PartialEq, Eq)]
pub enum SandboxRuntime {
    Bubblewrap { path: String },
    SandboxExec { path: String },
    Direct,
    DeclaredPolicyOnly { reason: String },
}

/// A private `/tmp` is given to every declared sandbox short of
/// unrestricted local development, unless the command runs directly.
pub fn sandbox_private_tmp_enabled(profile: Option<SandboxProfile>, runtime: Option<&SandboxRuntime>) -> (r:
    bool)
    ensures
        r == ((profile matches Some(p) && p != SandboxProfile::UnrestrictedLocalDev) && !(
        runtime matches Some(SandboxRuntime::Direct))),
{
    let declared = match profile {
        Some(SandboxProfile::UnrestrictedLocalDev) => false,
        Some(_) => true,
        None => false,
    };
    let direct = match runtime {
        Some(SandboxRuntime::Direct) => true,
        _ => false,
    };
    declared && !direct
}

/// The command that starts the JavaScript worker: only under bubblewrap,
/// which runs it with the fixed arguments above.
pub fn javascript_worker_spawn_command(runtime: Option<&SandboxRuntime>, worker_path: &str) -> (r:
    Result<(String, Vec<String>), String>)
    ensures
        match runtime {
            Some(SandboxRuntime::Bubblewrap { path }) => r matches Ok((c, a)) && c@ == path@
                && crate::text::string_views(a@) == bubblewrap_args_spec(worker_path@),
            _ => r matches Err(m) && m@
                == "deterministic JavaScript worker requires a real platform sandbox backend"@,
        },
{
    match runtime {
        Some(SandboxRuntime::Bubblewrap { path }) => Ok((path.clone(), bubblewrap_args(worker_path))),
        _ => Err("deterministic JavaScript worker requires a real platform sandbox backend".to_owned()),
    }
}

/// The names and values of an environment.
pub open spec fn env_view(env: Seq<(String, String)>) -> Seq<(Seq<char>, Seq<char>)> {
    env.map_values(|p: (String, String)| (p.0@, p.1@))
}

/// A copy of an environment.
pub fn clone_env(env: &Vec<(String, String)>) -> (r: Vec<(String, String)>)
    ensures
        env_view(r@) == env_view(env@),
{
    let mut r: Vec<(String, String)> = Vec::new();
    let mut i: usize = 0;
    while i < env.len()
        invariant
            i <= env@.len(),
            r@.len() == i,
            forall|j: int| 0 <= j < i ==> #[trigger] r@[j].0@ == env@[j].0@ && r@[j].1@ == env@[j].1@,
        decreases env.len() - i,
    {
        r.push((env[i].0.clone(), env[i].1.clone()));
        i = i + 1;
    }
    assert(env_view(r@) =~= env_view(env@));
    r
}

} // verus!
