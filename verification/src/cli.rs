//! The client's decisions: which request a command line becomes, how
//! sessions are listed in the picker, and when a failed connection means
//! that no daemon is running.
use crate::protocol::{Request, SessionInfo};
use crate::session::{opt_view, opt_views, views};
use crate::text::string_of;
use vstd::prelude::*;
use vstd::string::*;

verus! {

/// A command of the command line that the daemon serves.
pub enum Command {
    Create {
        name: Option<String>,
        shell: Option<String>,
        cwd: Option<String>,
        envs: Option<Vec<String>>,
        prompt: Option<String>,
        rows: Option<u16>,
        cols: Option<u16>,
        buffer_size: Option<usize>,
        record: bool,
    },
    Destroy { session: Option<String> },
    Send {
        session: String,
        text: Option<String>,
        ctrl: Option<String>,
        nowait: bool,
        timeout: Option<u64>,
        idle_timeout: Option<u64>,
        client_id: Option<String>,
    },
    Read { session: String, screen: bool, client_id: Option<String> },
    Wait {
        session: String,
        pattern: String,
        fixed: bool,
        timeout: Option<u64>,
        client_id: Option<String>,
    },
    SetPrompt { session: String, prompt: Option<String> },
    List,
    Attach { session: Option<String>, writable: bool },
    Resize { session: String, rows: u16, cols: u16 },
    Mouse {
        session: String,
        action: String,
        x: u16,
        y: u16,
        button: String,
        direction: Option<String>,
        count: Option<u16>,
        to_x: Option<u16>,
        to_y: Option<u16>,
        steps: Option<u16>,
    },
    Stop,
}

/// A flag as an optional field: `Some(true)` when set, absent otherwise.
pub open spec fn flag(b: bool) -> Option<bool> {
    if b {
        Some(true)
    } else {
        None
    }
}

fn flag_of(b: bool) -> (r: Option<bool>)
    ensures
        r == flag(b),
{
    if b {
        Some(true)
    } else {
        None
    }
}

/// The text of an optional string, empty when absent.
pub open spec fn text_or_empty(s: Option<String>) -> Seq<char> {
    match s {
        Some(t) => t@,
        None => Seq::empty(),
    }
}

fn string_or_empty(s: Option<String>) -> (r: String)
    ensures
        r@ == text_or_empty(s),
{
    match s {
        Some(t) => t,
        None => String::new(),
    }
}

/// The first `=` in `s`, if any.
pub open spec fn first_eq(s: Seq<char>) -> Option<int> {
    if exists|i: int| 0 <= i < s.len() && s[i] == '=' {
        Some(choose|i: int| 0 <= i < s.len() && s[i] == '=' && forall|k: int| 0 <= k < i ==> s[k] != '=')
    } else {
        None
    }
}

/// `p` splits at its first `=` into `key` and `value`.
pub open spec fn splits_to(p: Seq<char>, key: Seq<char>, value: Seq<char>) -> bool {
    exists|i: int|
        0 <= i < p.len() && p[i] == '=' && (forall|k: int| 0 <= k < i ==> p[k] != '=') && key
            == p.subrange(0, i) && value == p.subrange(i + 1, p.len() as int)
}

/// The environment that `KEY=VALUE` pairs give, in order: each pair split at
/// its first `=`, a later pair for a key replacing an earlier one, and a pair
/// without `=` left out.
pub open spec fn env_entries(pairs: Seq<Seq<char>>) -> Map<Seq<char>, Seq<char>>
    decreases pairs.len(),
{
    if pairs.len() == 0 {
        Map::empty()
    } else {
        let m = env_entries(pairs.drop_last());
        let p = pairs.last();
        match first_eq(p) {
            Some(i) => m.insert(p.subrange(0, i), p.subrange(i + 1, p.len() as int)),
            None => m,
        }
    }
}

/// A map keyed by strings holds exactly the entries of `e`, read through
/// the strings' text.
pub open spec fn env_agrees(m: Map<String, String>, e: Map<Seq<char>, Seq<char>>) -> bool {
    &&& forall|s: String| #[trigger] m.contains_key(s) ==> e.contains_key(s@)
    &&& forall|ks: Seq<char>|
        #[trigger] e.contains_key(ks) ==> exists|s: String|
            m.contains_key(s) && s@ == ks && (#[trigger] m[s])@ == e[ks]
}

proof fn lemma_first_eq_is(p: Seq<char>, i: int)
    requires
        0 <= i < p.len(),
        p[i] == '=',
        forall|k: int| 0 <= k < i ==> p[k] != '=',
    ensures
        first_eq(p) == Some(i),
{
    let j = choose|j: int| 0 <= j < p.len() && p[j] == '=' && forall|k: int| 0 <= k < j ==> p[k] != '=';
    assert(0 <= j < p.len() && p[j] == '=' && forall|k: int| 0 <= k < j ==> p[k] != '=');
    if j < i {
        assert(p[j] != '=');
    } else if j > i {
        assert(p[i] != '=');
    }
}

proof fn lemma_first_eq_found(p: Seq<char>, w: int)
    requires
        0 <= w < p.len(),
        p[w] == '=',
    ensures
        first_eq(p) matches Some(i) && 0 <= i <= w && p[i] == '=' && forall|k: int| 0 <= k < i ==> p[k] != '=',
    decreases w,
{
    if exists|k: int| 0 <= k < w && p[k] == '=' {
        let k = choose|k: int| 0 <= k < w && p[k] == '=';
        lemma_first_eq_found(p, k);
    } else {
        lemma_first_eq_is(p, w);
    }
}

/// The environment of the pairs holds a key exactly when some pair splits
/// to it, with the value of the last such pair.
pub proof fn lemma_env_entries(pairs: Seq<Seq<char>>, key: Seq<char>)
    ensures
        env_entries(pairs).contains_key(key) <==> exists|j: int, v: Seq<char>|
            0 <= j < pairs.len() && #[trigger] splits_to(pairs[j], key, v),
        env_entries(pairs).contains_key(key) ==> exists|j: int|
            0 <= j < pairs.len() && splits_to(#[trigger] pairs[j], key, env_entries(pairs)[key])
                && forall|j2: int, v2: Seq<char>|
                j < j2 < pairs.len() ==> !#[trigger] splits_to(pairs[j2], key, v2),
    decreases pairs.len(),
{
    if pairs.len() > 0 {
        let n = pairs.len() - 1;
        let init = pairs.drop_last();
        let p = pairs.last();
        lemma_env_entries(init, key);
        assert forall|j: int| 0 <= j < n implies init[j] == pairs[j] by {}
        assert(pairs[n] == p);
        // A pair splits in one way only.
        assert forall|k2: Seq<char>, v2: Seq<char>| splits_to(p, k2, v2) implies first_eq(p) is Some
            && k2 == p.subrange(0, first_eq(p)->0) && v2 == p.subrange(first_eq(p)->0 + 1, p.len() as int) by {
            let i = choose|i: int|
                0 <= i < p.len() && p[i] == '=' && (forall|k: int| 0 <= k < i ==> p[k] != '=') && k2
                    == p.subrange(0, i) && v2 == p.subrange(i + 1, p.len() as int);
            lemma_first_eq_is(p, i);
        }
        match first_eq(p) {
            Some(i) => {
                let w = choose|w: int| 0 <= w < p.len() && p[w] == '=';
                lemma_first_eq_found(p, w);
                let pk = p.subrange(0, i);
                let pv = p.subrange(i + 1, p.len() as int);
                assert(splits_to(p, pk, pv));
                if key == pk {
                    assert(splits_to(pairs[n], key, pv));
                    assert(env_entries(pairs)[key] == pv);
                } else {
                    assert forall|v2: Seq<char>| !splits_to(pairs[n], key, v2) by {}
                    if env_entries(pairs).contains_key(key) {
                        let j0 = choose|j: int|
                            0 <= j < init.len() && splits_to(#[trigger] init[j], key, env_entries(init)[key])
                                && forall|j2: int, v2: Seq<char>|
                                j < j2 < init.len() ==> !#[trigger] splits_to(init[j2], key, v2);
                        assert(splits_to(pairs[j0], key, env_entries(pairs)[key]));
                        assert forall|j2: int, v2: Seq<char>| j0 < j2 < pairs.len() implies !#[trigger] splits_to(
                            pairs[j2], key, v2) by {
                            if j2 < n {
                                assert(init[j2] == pairs[j2]);
                            }
                        }
                    }
                    if exists|j: int, v: Seq<char>| 0 <= j < pairs.len() && #[trigger] splits_to(pairs[j], key, v) {
                        let (j1, v1) = choose|j: int, v: Seq<char>| 0 <= j < pairs.len() && #[trigger] splits_to(pairs[j], key, v);
                        assert(j1 < n);
                        assert(splits_to(init[j1], key, v1));
                    }
                }
            },
            None => {
                assert forall|v2: Seq<char>| !splits_to(pairs[n], key, v2) by {}
                if env_entries(pairs).contains_key(key) {
                    let j0 = choose|j: int|
                        0 <= j < init.len() && splits_to(#[trigger] init[j], key, env_entries(init)[key])
                            && forall|j2: int, v2: Seq<char>|
                            j < j2 < init.len() ==> !#[trigger] splits_to(init[j2], key, v2);
                    assert(splits_to(pairs[j0], key, env_entries(pairs)[key]));
                    assert forall|j2: int, v2: Seq<char>| j0 < j2 < pairs.len() implies !#[trigger] splits_to(
                        pairs[j2], key, v2) by {
                        if j2 < n {
                            assert(init[j2] == pairs[j2]);
                        }
                    }
                }
                if exists|j: int, v: Seq<char>| 0 <= j < pairs.len() && #[trigger] splits_to(pairs[j], key, v) {
                    let (j1, v1) = choose|j: int, v: Seq<char>| 0 <= j < pairs.len() && #[trigger] splits_to(pairs[j], key, v);
                    assert(j1 < n);
                    assert(splits_to(init[j1], key, v1));
                }
            },
        }
    }
}

proof fn lemma_env_agrees_insert(
    m: Map<String, String>,
    e: Map<Seq<char>, Seq<char>>,
    key: String,
    value: String,
)
    requires
        env_agrees(m, e),
    ensures
        env_agrees(m.insert(key, value), e.insert(key@, value@)),
{
    let m2 = m.insert(key, value);
    let e2 = e.insert(key@, value@);
    assert forall|s: String| #[trigger] m2.contains_key(s) implies e2.contains_key(s@) by {
        if s != key {
            assert(m.contains_key(s));
        }
    }
    assert forall|ks: Seq<char>| #[trigger] e2.contains_key(ks) implies exists|s: String|
        m2.contains_key(s) && s@ == ks && (#[trigger] m2[s])@ == e2[ks] by {
        if ks == key@ {
            assert(m2.contains_key(key) && m2[key]@ == e2[ks]);
        } else {
            assert(e.contains_key(ks));
            let s = choose|s: String| m.contains_key(s) && s@ == ks && (#[trigger] m[s])@ == e[ks];
            assert(s != key);
            assert(m2.contains_key(s) && m2[s]@ == e2[ks]);
        }
    }
}

/// `KEY=VALUE` split at its first `=`; `None` without one.
pub fn parse_env_pair(pair: &str) -> (r: Option<(String, String)>)
    ensures
        r is Some <==> (exists|i: int| 0 <= i < pair@.len() && pair@[i] == '='),
        r matches Some(kv) ==> (exists|i: int|
            0 <= i < pair@.len() && pair@[i] == '=' && (forall|k: int| 0 <= k < i ==> pair@[k] != '=')
                && kv.0@ == pair@.subrange(0, i) && kv.1@ == pair@.subrange(i + 1, pair@.len() as int)),
{
    let n = pair.unicode_len();
    let mut i: usize = 0;
    while i < n
        invariant
            0 <= i <= n,
            n == pair@.len(),
            forall|k: int| 0 <= k < i ==> pair@[k] != '=',
        decreases n - i,
    {
        if pair.get_char(i) == '=' {
            let key = string_of(pair.substring_char(0, i));
            let value = string_of(pair.substring_char(i + 1, n));
            return Some((key, value));
        }
        i = i + 1;
    }
    None
}

/// What the command line asks of the daemon. A `create` runs the given
/// shell as the single argv (or the default program when none is given),
/// in the given directory or else the current one, with the `KEY=VALUE`
/// pairs as its environment; flags become optional fields that are set
/// only when the flag is; a missing session id becomes the empty one.
pub fn command_to_request(cmd: Command, current_dir: Option<String>) -> (r: Request)
    ensures
        match (cmd, r) {
            (
                Command::Create { name, shell, cwd, envs, prompt, rows, cols, buffer_size, record },
                Request::Create {
                    name: n,
                    program,
                    args,
                    cwd: c,
                    env,
                    prompt: p,
                    rows: ro,
                    cols: co,
                    buffer_size: bs,
                    record: rec,
                },
            ) => {
                &&& n == name
                &&& program is None
                &&& opt_views(args) == match shell {
                    Some(s) => Some(seq![s@]),
                    None => None,
                }
                &&& opt_view(c) == match cwd {
                    Some(d) => Some(d@),
                    None => opt_view(current_dir),
                }
                &&& (env is Some <==> envs is Some)
                &&& match (env, envs) {
                    (Some(m), Some(ps)) => vstd::std_specs::hash::obeys_key_model::<String>()
                        ==> env_agrees(m@, env_entries(views(ps@))),
                    _ => true,
                }
                &&& p == prompt
                &&& ro == rows
                &&& co == cols
                &&& bs == buffer_size
                &&& rec == flag(record)
            },
            (Command::Destroy { session }, Request::Destroy { session_id }) => session_id@
                == text_or_empty(session),
            (
                Command::Send { session, text, ctrl, nowait, timeout, idle_timeout, client_id },
                Request::Send {
                    session_id,
                    text: t,
                    ctrl: c,
                    nowait: nw,
                    timeout_ms,
                    idle_timeout_ms,
                    client_id: cid,
                },
            ) => {
                &&& session_id == session
                &&& t@ == text_or_empty(text)
                &&& c == ctrl
                &&& nw == flag(nowait)
                &&& timeout_ms == timeout
                &&& idle_timeout_ms == idle_timeout
                &&& cid == client_id
            },
            (
                Command::Read { session, screen, client_id },
                Request::Read { session_id, client_id: cid, screen: sc },
            ) => session_id == session && cid == client_id && sc == flag(screen),
            (
                Command::Wait { session, pattern, fixed, timeout, client_id },
                Request::Wait { session_id, pattern: pat, fixed: fx, timeout_ms, client_id: cid },
            ) => session_id == session && pat == pattern && fx == flag(fixed) && timeout_ms
                == timeout && cid == client_id,
            (
                Command::SetPrompt { session, prompt },
                Request::SetPrompt { session_id, prompt: p },
            ) => session_id == session && p == prompt,
            (Command::List, Request::List) => true,
            (Command::Attach { session, writable }, Request::Attach { session_id, writable: w }) =>
                session_id@ == text_or_empty(session) && w == flag(writable),
            (
                Command::Resize { session, rows, cols },
                Request::Resize { session_id, rows: ro, cols: co },
            ) => session_id == session && ro == rows && co == cols,
            (
                Command::Mouse { session, action, x, y, button, direction, count, to_x, to_y, steps },
                Request::Mouse {
                    session_id,
                    action: a,
                    x: x2,
                    y: y2,
                    button: b,
                    direction: d,
                    count: n,
                    to_x: tx,
                    to_y: ty,
                    steps: st,
                },
            ) => {
                &&& session_id == session
                &&& a == action
                &&& x2 == x
                &&& y2 == y
                &&& b == Some(button)
                &&& d == direction
                &&& n == count
                &&& tx == to_x
                &&& ty == to_y
                &&& st == steps
            },
            (Command::Stop, Request::Stop) => true,
            _ => false,
        },
{
    match cmd {
        Command::Create { name, shell, cwd, envs, prompt, rows, cols, buffer_size, record } => {
            let env = match envs {
                Some(pairs) => {
                    let mut map: std::collections::HashMap<String, String> =
                        std::collections::HashMap::new();
                    let mut k: usize = 0;
                    assert(env_entries(views(pairs@).take(0)) =~= Map::empty());
                    while k < pairs.len()
                        invariant
                            0 <= k <= pairs@.len(),
                            vstd::std_specs::hash::obeys_key_model::<String>() ==> env_agrees(
                                map@,
                                env_entries(views(pairs@).take(k as int)),
                            ),
                        decreases pairs@.len() - k,
                    {
                        let ghost p = pairs@[k as int]@;
                        let ghost t = views(pairs@).take(k + 1);
                        proof {
                            assert(t.drop_last() =~= views(pairs@).take(k as int));
                            assert(t.last() == p);
                        }
                        match parse_env_pair(pairs[k].as_str()) {
                            Some((key, value)) => {
                                let ghost m0 = map@;
                                proof {
                                    let i = choose|i: int|
                                        0 <= i < p.len() && p[i] == '=' && (forall|k: int|
                                            0 <= k < i ==> p[k] != '=') && key@ == p.subrange(0, i)
                                            && value@ == p.subrange(i + 1, p.len() as int);
                                    lemma_first_eq_is(p, i);
                                }
                                map.insert(key, value);
                                proof {
                                    if vstd::std_specs::hash::obeys_key_model::<String>() {
                                        lemma_env_agrees_insert(
                                            m0,
                                            env_entries(views(pairs@).take(k as int)),
                                            key,
                                            value,
                                        );
                                    }
                                }
                            },
                            None => {},
                        }
                        k = k + 1;
                    }
                    assert(views(pairs@).take(k as int) =~= views(pairs@));

                    Some(map)
                },
                None => None,
            };
            let args = match shell {
                Some(s) => {
                    let v = vec![s];
                    assert(views(v@) =~= seq![v@[0]@]);
                    Some(v)
                },
                None => None,
            };
            let cwd = match cwd {
                Some(d) => Some(d),
                None => current_dir,
            };
            Request::Create {
                name,
                program: None,
                args,
                cwd,
                env,
                prompt,
                rows,
                cols,
                buffer_size,
                record: flag_of(record),
            }
        },
        Command::Destroy { session } => Request::Destroy { session_id: string_or_empty(session) },
        Command::Send { session, text, ctrl, nowait, timeout, idle_timeout, client_id } =>
            Request::Send {
            session_id: session,
            text: string_or_empty(text),
            ctrl,
            nowait: flag_of(nowait),
            timeout_ms: timeout,
            idle_timeout_ms: idle_timeout,
            client_id,
        },
        Command::Read { session, screen, client_id } => Request::Read {
            session_id: session,
            screen: flag_of(screen),
            client_id,
        },
        Command::Wait { session, pattern, fixed, timeout, client_id } => Request::Wait {
            session_id: session,
            pattern,
            fixed: flag_of(fixed),
            timeout_ms: timeout,
            client_id,
        },
        Command::SetPrompt { session, prompt } => Request::SetPrompt { session_id: session, prompt },
        Command::List => Request::List,
        Command::Attach { session, writable } => Request::Attach {
            session_id: string_or_empty(session),
            writable: flag_of(writable),
        },
        Command::Resize { session, rows, cols } => Request::Resize {
            session_id: session,
            rows,
            cols,
        },
        Command::Mouse { session, action, x, y, button, direction, count, to_x, to_y, steps } =>
            Request::Mouse {
            session_id: session,
            action,
            x,
            y,
            button: Some(button),
            direction,
            count,
            to_x,
            to_y,
            steps,
        },
        Command::Stop => Request::Stop,
    }
}

/// Whether an attach request asks for a read-only stream (anything but an
/// explicit `writable: true`).
pub fn attach_is_readonly(req: &Request) -> (r: bool)
    ensures
        r == !(req matches Request::Attach { writable: Some(true), .. }),
{
    match req {
        Request::Attach { writable: Some(true), .. } => false,
        _ => true,
    }
}

/// The part of `path` after its last `/` (all of it without one).
pub open spec fn basename(path: Seq<char>) -> Seq<char> {
    if exists|i: int| 0 <= i < path.len() && path[i] == '/' {
        let i = choose|i: int|
            0 <= i < path.len() && path[i] == '/' && forall|k: int| i < k < path.len() ==> path[k]
                != '/';
        path.subrange(i + 1, path.len() as int)
    } else {
        path
    }
}

fn basename_of(path: &str) -> (r: String)
    ensures
        r@ == basename(path@),
{
    let n = path.unicode_len();
    let mut i: usize = n;
    while i > 0
        invariant
            0 <= i <= n,
            n == path@.len(),
            forall|k: int| i <= k < n ==> path@[k] != '/',
        decreases i,
    {
        if path.get_char(i - 1) == '/' {
            let ghost j = (i - 1) as int;
            assert(0 <= j < path@.len() && path@[j] == '/');
            let ghost c = choose|c: int|
                0 <= c < path@.len() && path@[c] == '/' && forall|k: int|
                    c < k < path@.len() ==> path@[k] != '/';
            assert(c == j) by {
                if c < j {
                    assert(path@[j] != '/');
                } else if c > j {
                    assert(path@[c] != '/');
                }
            }
            return string_of(path.substring_char(i, n));
        }
        i = i - 1;
    }
    string_of(path)
}

/// How the picker lists a session: `<id> (<name>, <program>, <cwd>)`,
/// with `<unnamed>` for a session without a name, the program's base name,
/// and `?` for what is unknown.
pub open spec fn spec_session_label(s: SessionInfo) -> Seq<char> {
    s.id@ + " ("@ + match s.name {
        Some(n) => n@,
        None => "<unnamed>"@,
    } + ", "@ + match s.program {
        Some(p) => basename(p@),
        None => "?"@,
    } + ", "@ + match s.cwd {
        Some(c) => c@,
        None => "?"@,
    } + ")"@
}

/// Formats a session label for display.
pub fn session_label(s: &SessionInfo) -> (r: String)
    ensures
        r@ == spec_session_label(*s),
{
    let mut out = string_of(s.id.as_str());
    out.append(" (");
    match &s.name {
        Some(n) => out.append(n.as_str()),
        None => out.append("<unnamed>"),
    }
    out.append(", ");
    match &s.program {
        Some(p) => {
            let b = basename_of(p.as_str());
            out.append(b.as_str());
        },
        None => out.append("?"),
    }
    out.append(", ");
    match &s.cwd {
        Some(c) => out.append(c.as_str()),
        None => out.append("?"),
    }
    out.append(")");
    out
}

/// The sessions the picker offers, by index: all of them, or only those
/// still running.
pub fn picker_candidates(sessions: &[SessionInfo], include_exited: bool) -> (r: Vec<usize>)
    ensures
        forall|k: int| 0 <= k < r@.len() ==> r@[k] < sessions@.len(),
        forall|k: int, l: int| 0 <= k < l < r@.len() ==> r@[k] < r@[l],
        forall|i: int|
            0 <= i < sessions@.len() ==> (r@.contains(i as usize) <==> (include_exited
                || !sessions@[i].exited)),
{
    let mut out: Vec<usize> = Vec::new();
    let mut i: usize = 0;
    while i < sessions.len()
        invariant
            0 <= i <= sessions@.len(),
            forall|k: int| 0 <= k < out@.len() ==> out@[k] < i,
            forall|k: int, l: int| 0 <= k < l < out@.len() ==> out@[k] < out@[l],
            forall|m: int|
                0 <= m < i ==> (out@.contains(m as usize) <==> (include_exited
                    || !sessions@[m].exited)),
        decreases sessions@.len() - i,
    {
        let ghost before = out@;
        if include_exited || !sessions[i].exited {
            out.push(i);
            assert(out@[out@.len() - 1] == i);
        }
        proof {
            assert forall|m: int| 0 <= m <= i implies (out@.contains(m as usize) <==> (
            include_exited || !sessions@[m].exited)) by {
                if m < i {
                    if before.contains(m as usize) {
                        let w = choose|w: int| 0 <= w < before.len() && before[w] == m as usize;
                        assert(out@[w] == m as usize);
                    }
                    if out@.contains(m as usize) {
                        let w = choose|w: int| 0 <= w < out@.len() && out@[w] == m as usize;
                        if w < before.len() {
                            assert(before[w] == m as usize);
                        }
                    }
                } else {
                    if out@.contains(m as usize) {
                        let w = choose|w: int| 0 <= w < out@.len() && out@[w] == m as usize;
                        if w < before.len() {
                            assert(before[w] < i);
                        }
                    }
                }
            }
        }
        i = i + 1;
    }
    out
}

/// `str::to_lowercase` of `s`.
pub uninterp spec fn lowercase(s: Seq<char>) -> Seq<char>;

/// `str::to_lowercase`.
#[verifier::external_body]
fn to_lowercase(s: &str) -> (r: String)
    ensures
        r@ == lowercase(s@),
{
    s.to_lowercase()
}

/// Whether `needle` occurs in `hay`.
pub open spec fn contains_text(hay: Seq<char>, needle: Seq<char>) -> bool {
    exists|i: int|
        0 <= i && i + needle.len() <= hay.len() && #[trigger] hay.subrange(i, i + needle.len())
            == needle
}

fn find_text(hay: &str, needle: &str) -> (r: bool)
    ensures
        r == contains_text(hay@, needle@),
{
    let n = hay.unicode_len();
    let m = needle.unicode_len();
    if m > n {
        assert(!contains_text(hay@, needle@));
        return false;
    }
    let mut i: usize = 0;
    while i <= n - m
        invariant
            0 <= i <= n - m + 1,
            m <= n,
            n == hay@.len(),
            m == needle@.len(),
            forall|k: int| 0 <= k < i ==> #[trigger] hay@.subrange(k, k + m) != needle@,
        decreases n - m + 1 - i,
    {
        let mut j: usize = 0;
        while j < m && hay.get_char(i + j) == needle.get_char(j)
            invariant
                0 <= j <= m,
                i + m <= n,
                n == hay@.len(),
                m == needle@.len(),
                forall|q: int| 0 <= q < j ==> hay@[i + q] == needle@[q],
            decreases m - j,
        {
            j = j + 1;
        }
        if j == m {
            assert(hay@.subrange(i as int, i + m) =~= needle@);
            return true;
        }
        assert(hay@.subrange(i as int, i + m)[j as int] != needle@[j as int]);
        i = i + 1;
    }
    false
}

/// Whether a connection error says that no daemon is listening: its
/// lower-cased text mentions a refused connection or a missing socket file.
pub fn daemon_absent(error: &str) -> (r: bool)
    ensures
        r == (contains_text(lowercase(error@), "connection refused"@) || contains_text(
            lowercase(error@),
            "no such file"@,
        )),
{
    let lower = to_lowercase(error);
    find_text(lower.as_str(), "connection refused") || find_text(lower.as_str(), "no such file")
}

} // verus!
