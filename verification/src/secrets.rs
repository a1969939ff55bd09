use vstd::prelude::*;
use vstd::string::StringExecFns;
use crate::cycle::views;
use crate::text::{chars_of, concat, join_path, path_join, str_eq, string_of};

verus! {

/// `s` quoted for a single-quoted shell word: each `'` becomes `'\''`.
pub open spec fn shell_escaped(s: Seq<char>) -> Seq<char>
    decreases s.len(),
{
    if s.len() == 0 {
        Seq::empty()
    } else {
        let head = if s[0] == '\'' {
            seq!['\'', '\\', '\'', '\'']
        } else {
            seq![s[0]]
        };
        head + shell_escaped(s.drop_first())
    }
}

proof fn lemma_shell_escaped_push(s: Seq<char>, c: char)
    ensures
        shell_escaped(s.push(c)) == shell_escaped(s) + (if c == '\'' {
            seq!['\'', '\\', '\'', '\'']
        } else {
            seq![c]
        }),
    decreases s.len(),
{
    if s.len() == 0 {
        assert(s.push(c).drop_first() =~= Seq::<char>::empty());
        assert(shell_escaped(Seq::<char>::empty()) =~= Seq::<char>::empty());
    } else {
        assert(s.push(c).drop_first() =~= s.drop_first().push(c));
        lemma_shell_escaped_push(s.drop_first(), c);
    }
}

/// `s` with each `'` replaced by `'\''`, for use inside single quotes.
pub fn escape_val(s: &str) -> (r: String)
    ensures
        r@ == shell_escaped(s@),
{
    let c = chars_of(s);
    let mut out: Vec<char> = Vec::new();
    let mut i: usize = 0;
    while i < c.len()
        invariant
            i <= c@.len(),
            out@ == shell_escaped(c@.take(i as int)),
        decreases c@.len() - i,
    {
        proof {
            assert(c@.take(i + 1) =~= c@.take(i as int).push(c@[i as int]));
            lemma_shell_escaped_push(c@.take(i as int), c@[i as int]);
        }
        if c[i] == '\'' {
            out.push('\'');
            out.push('\\');
            out.push('\'');
            out.push('\'');
        } else {
            out.push(c[i]);
        }
        i += 1;
    }
    assert(c@.take(c@.len() as int) =~= c@);
    string_of(out.as_slice())
}

/// Length of the leading run of `s` that holds no `'`.
pub open spec fn unquoted_run(s: Seq<char>) -> nat
    decreases s.len(),
{
    if s.len() == 0 || s[0] == '\'' {
        0
    } else {
        1 + unquoted_run(s.drop_first())
    }
}

/// The value a POSIX shell gives a word made of single-quoted parts,
/// backslash-escaped characters and plain characters: the word with its
/// quoting removed. (A quote left open keeps the rest of the word.)
pub open spec fn sh_word_value(w: Seq<char>) -> Seq<char>
    decreases w.len(),
{
    if w.len() == 0 {
        Seq::empty()
    } else if w[0] == '\'' {
        let k = unquoted_run(w.drop_first());
        if k + 1 >= w.len() {
            w.drop_first()
        } else {
            w.subrange(1, k + 1 as int) + sh_word_value(w.skip(k + 2 as int))
        }
    } else if w[0] == '\\' && w.len() >= 2 {
        seq![w[1]] + sh_word_value(w.skip(2))
    } else {
        seq![w[0]] + sh_word_value(w.drop_first())
    }
}

proof fn lemma_unquoted_run_prefix(p: Seq<char>, q: Seq<char>)
    requires
        forall|i: int| 0 <= i < p.len() ==> p[i] != '\'',
        q.len() > 0,
        q[0] == '\'',
    ensures
        unquoted_run(p + q) == p.len(),
    decreases p.len(),
{
    if p.len() == 0 {
        assert(p + q =~= q);
    } else {
        assert((p + q).drop_first() =~= p.drop_first() + q);
        lemma_unquoted_run_prefix(p.drop_first(), q);
    }
}

proof fn lemma_quoted_value(p: Seq<char>, s: Seq<char>)
    requires
        forall|i: int| 0 <= i < p.len() ==> p[i] != '\'',
    ensures
        sh_word_value(seq!['\''] + p + shell_escaped(s) + seq!['\'']) == p + s,
    decreases s.len(),
{
    let w = seq!['\''] + p + shell_escaped(s) + seq!['\''];
    if s.len() == 0 {
        assert(shell_escaped(s) =~= Seq::<char>::empty());
        assert(w.drop_first() =~= p + seq!['\'']);
        lemma_unquoted_run_prefix(p, seq!['\'']);
        assert(w.subrange(1, p.len() + 1 as int) =~= p);
        assert(w.skip(p.len() + 2 as int) =~= Seq::<char>::empty());
        assert(sh_word_value(Seq::<char>::empty()) =~= Seq::<char>::empty());
        assert(w[0] == '\'');
        assert(sh_word_value(w) == w.subrange(1, p.len() + 1 as int) + sh_word_value(
            w.skip(p.len() + 2 as int),
        ));
        assert(p + s =~= p);
    } else if s[0] != '\'' {
        let p2 = p.push(s[0]);
        assert(shell_escaped(s) == seq![s[0]] + shell_escaped(s.drop_first()));
        assert(w =~= seq!['\''] + p2 + shell_escaped(s.drop_first()) + seq!['\'']);
        lemma_quoted_value(p2, s.drop_first());
        assert(p2 + s.drop_first() =~= p + s);
    } else {
        let rest = s.drop_first();
        assert(shell_escaped(s) == seq!['\'', '\\', '\'', '\''] + shell_escaped(rest));
        let tail = seq!['\\', '\'', '\''] + shell_escaped(rest) + seq!['\''];
        assert(w.drop_first() =~= p + (seq!['\''] + tail));
        lemma_unquoted_run_prefix(p, seq!['\''] + tail);
        assert(w.subrange(1, p.len() + 1 as int) =~= p);
        assert(w.skip(p.len() + 2 as int) =~= tail);
        let inner = seq!['\''] + Seq::<char>::empty() + shell_escaped(rest) + seq!['\''];
        assert(tail.skip(2) =~= inner);
        lemma_quoted_value(Seq::<char>::empty(), rest);
        assert(tail[0] == '\\');
        assert(tail.skip(2) =~= seq!['\''] + shell_escaped(rest) + seq!['\'']);
        assert(sh_word_value(tail) == seq![tail[1]] + sh_word_value(tail.skip(2)));
        assert(sh_word_value(tail) =~= seq!['\''] + rest);
        assert(w[0] == '\'');
        assert(sh_word_value(w) == w.subrange(1, p.len() + 1 as int) + sh_word_value(
            w.skip(p.len() + 2 as int),
        ));
        assert(p + (seq!['\''] + rest) =~= p + s);
    }
}

/// An exported value reads back unchanged: a shell that evaluates
/// `'<escape_val(s)>'` gets `s`.
pub proof fn lemma_export_value_round_trip(s: Seq<char>)
    ensures
        sh_word_value(seq!['\''] + shell_escaped(s) + seq!['\'']) == s,
{
    lemma_quoted_value(Seq::empty(), s);
    assert(seq!['\''] + Seq::<char>::empty() + shell_escaped(s) + seq!['\''] =~= seq!['\'']
        + shell_escaped(s) + seq!['\'']);
    assert(Seq::<char>::empty() + s =~= s);
}

/// What the command line asks of the secrets tool.
pub enum EnvRequest {
    /// Print an `export` line for each key.
    Print { keys: Vec<String> },
    /// Run `command` with the keys set in its environment.
    Exec { keys: Vec<String>, command: Vec<String> },
}

/// Index of the first `--` among `args`, if any.
pub open spec fn dash_position(args: Seq<Seq<char>>) -> Option<int> {
    if exists|i: int| 0 <= i < args.len() && args[i] == "--"@ {
        Some(choose|i: int| 0 <= i < args.len() && args[i] == "--"@ && forall|j: int| 0 <= j < i ==> args[j] != "--"@)
    } else {
        None
    }
}

/// Reads the command line `args` (without the program name): keys, or keys,
/// `--` and a command to run.
pub fn parse_args(args: &[String]) -> (r: Result<EnvRequest, String>)
    ensures
        ({
            let a = views(args@);
            match r {
                Ok(EnvRequest::Print { keys }) => !(exists|i: int| 0 <= i < a.len() && a[i] == "--"@)
                    && a.len() > 0 && keys@ == args@,
                Ok(EnvRequest::Exec { keys, command }) => exists|p: int|
                    0 <= p < a.len() && a[p] == "--"@ && (forall|j: int| 0 <= j < p ==> a[j] != "--"@)
                        && p > 0 && p + 1 < a.len() && keys@ == args@.take(p) && command@
                        == args@.skip(p + 1),
                Err(msg) => if exists|i: int| 0 <= i < a.len() && a[i] == "--"@ {
                    exists|p: int|
                        0 <= p < a.len() && a[p] == "--"@ && (forall|j: int| 0 <= j < p ==> a[j] != "--"@) && (
                        if p == 0 {
                            msg@ == "no keys specified before '--'"@
                        } else {
                            p + 1 == a.len() && msg@ == "no command specified after '--'"@
                        })
                } else {
                    a.len() == 0 && msg@ == "no keys specified"@
                },
            }
        }),
{
    let mut i: usize = 0;
    while i < args.len() && !str_eq(args[i].as_str(), "--")
        invariant
            i <= args@.len(),
            forall|j: int| 0 <= j < i ==> views(args@)[j] != "--"@,
        decreases args@.len() - i,
    {
        i += 1;
    }
    let ghost a = views(args@);
    if i < args.len() {
        assert(a[i as int] == "--"@);
        if i == 0 {
            return Err("no keys specified before '--'".to_owned());
        }
        if i + 1 == args.len() {
            return Err("no command specified after '--'".to_owned());
        }
        let mut keys: Vec<String> = Vec::new();
        let mut k: usize = 0;
        while k < i
            invariant
                k <= i < args@.len(),
                keys@ == args@.take(k as int),
            decreases i - k,
        {
            keys.push(args[k].clone());
            assert(args@.take(k + 1) =~= args@.take(k as int).push(args@[k as int]));
            k += 1;
        }
        let mut command: Vec<String> = Vec::new();
        let mut k: usize = i + 1;
        while k < args.len()
            invariant
                i + 1 <= k <= args@.len(),
                command@ == args@.subrange(i + 1, k as int),
            decreases args@.len() - k,
        {
            command.push(args[k].clone());
            assert(args@.subrange(i + 1, k + 1) =~= args@.subrange(i + 1, k as int).push(args@[k as int]));
            k += 1;
        }
        assert(command@ =~= args@.skip(i + 1));
        Ok(EnvRequest::Exec { keys, command })
    } else {
        if args.len() == 0 {
            return Err("no keys specified".to_owned());
        }
        let mut keys: Vec<String> = Vec::new();
        let mut k: usize = 0;
        while k < args.len()
            invariant
                k <= args@.len(),
                keys@ == args@.take(k as int),
            decreases args@.len() - k,
        {
            keys.push(args[k].clone());
            assert(args@.take(k + 1) =~= args@.take(k as int).push(args@[k as int]));
            k += 1;
        }
        assert(keys@ =~= args@);
        Ok(EnvRequest::Print { keys })
    }
}

} // verus!

verus! {

/// What `serde_json::from_str::<serde_json::Value>` makes of `text`, as far as
/// the secrets file is concerned: the error message when the text is not
/// JSON; `None` when it is JSON but not an object; otherwise the object's
/// members in the order of the parsed map, each with its string value, or
/// `None` when that value is not a string.
pub uninterp spec fn json_object_strings(text: Seq<char>) -> Result<
    Option<Seq<(Seq<char>, Option<Seq<char>>)>>,
    Seq<char>,
>;

/// The members of a parsed JSON object, by their characters.
pub open spec fn members_view(m: Seq<(String, Option<String>)>) -> Seq<(Seq<char>, Option<Seq<char>>)> {
    m.map_values(
        |p: (String, Option<String>)|
            (
                p.0@,
                match p.1 {
                    Some(s) => Some(s@),
                    None => None,
                },
            ),
    )
}

/// A parse result by its characters.
pub open spec fn parsed_view(r: Result<Option<Vec<(String, Option<String>)>>, String>) -> Result<
    Option<Seq<(Seq<char>, Option<Seq<char>>)>>,
    Seq<char>,
> {
    match r {
        Ok(Some(m)) => Ok(Some(members_view(m@))),
        Ok(None) => Ok(None),
        Err(e) => Err(e@),
    }
}

/// Parses `text` with `serde_json::from_str` into a `serde_json::Value` and
/// reads off its top level. Its contract claims that the result depends on
/// `text` alone (the name `json_object_strings`), and that the members of an
/// object have distinct names (serde_json keeps them in a `BTreeMap`).
#[verifier::external_body]
fn parse_json_members(text: &str) -> (r: Result<Option<Vec<(String, Option<String>)>>, String>)
    ensures
        parsed_view(r) == json_object_strings(text@),
        r matches Ok(Some(m)) ==> forall|i: int, j: int|
            0 <= i < j < m@.len() ==> m@[i].0@ != m@[j].0@,
{
    match serde_json::from_str::<serde_json::Value>(text) {
        Err(e) => Err(e.to_string()),
        Ok(serde_json::Value::Object(map)) => Ok(Some(
            map.into_iter().map(|(k, v)| match v {
                serde_json::Value::String(s) => (k, Some(s)),
                _ => (k, None),
            }).collect(),
        )),
        Ok(_) => Ok(None),
    }
}

/// Index of the first member whose value is not a string, if any.
pub open spec fn first_non_string(m: Seq<(Seq<char>, Option<Seq<char>>)>) -> Option<int> {
    if exists|i: int| 0 <= i < m.len() && m[i].1 is None {
        Some(choose|i: int| 0 <= i < m.len() && m[i].1 is None && forall|j: int| 0 <= j < i ==> m[j].1 is Some)
    } else {
        None
    }
}

/// The secrets in a parsed secrets file at `path`: each member with its
/// string value, or the error the tool reports.
pub open spec fn secrets_of(
    path: Seq<char>,
    parsed: Result<Option<Seq<(Seq<char>, Option<Seq<char>>)>>, Seq<char>>,
) -> Result<Seq<(Seq<char>, Seq<char>)>, Seq<char>> {
    match parsed {
        Err(e) => Err("Failed to parse "@ + path + ": "@ + e),
        Ok(None) => Err(path + " must be a JSON object"@),
        Ok(Some(m)) => match first_non_string(m) {
            Some(i) => Err("Value for '"@ + m[i].0 + "' must be a string"@),
            None => Ok(m.map_values(|p: (Seq<char>, Option<Seq<char>>)| (p.0, p.1->0))),
        },
    }
}

/// The secrets by their characters.
pub open spec fn pairs_view(v: Seq<(String, String)>) -> Seq<(Seq<char>, Seq<char>)> {
    v.map_values(|p: (String, String)| (p.0@, p.1@))
}

/// Checks a parsed secrets file at `path`: it must be a JSON object whose
/// values are all strings.
pub fn secrets_from_parsed(
    path: &str,
    parsed: Result<Option<Vec<(String, Option<String>)>>, String>,
) -> (r: Result<Vec<(String, String)>, String>)
    ensures
        match (r, secrets_of(path@, parsed_view(parsed))) {
            (Ok(v), Ok(w)) => pairs_view(v@) == w,
            (Err(e), Err(f)) => e@ == f,
            _ => false,
        },
{
    let ghost pv = parsed_view(parsed);
    match parsed {
        Err(e) => {
            let mut m = concat("Failed to parse ", path);
            m.append(": ");
            m.append(e.as_str());
            Err(m)
        },
        Ok(None) => Err(concat(path, " must be a JSON object")),
        Ok(Some(members)) => {
            let ghost mv = members_view(members@);
            let mut out: Vec<(String, String)> = Vec::new();
            let mut i: usize = 0;
            while i < members.len()
                invariant
                    i <= members@.len(),
                    mv == members_view(members@),
                    pv == Ok::<_, Seq<char>>(Some(mv)),
                    pv == parsed_view(parsed),
                    forall|j: int| 0 <= j < i ==> mv[j].1 is Some,
                    out@.len() == i,
                    forall|j: int|
                        0 <= j < i ==> (#[trigger] out@[j]).0@ == mv[j].0 && out@[j].1@ == mv[j].1->0,
                decreases members@.len() - i,
            {
                match &members[i].1 {
                    Some(v) => {
                        out.push((members[i].0.clone(), v.clone()));
                        assert(mv[i as int] == (members@[i as int].0@, Some(v@)));
                    },
                    None => {
                        assert(mv[i as int].1 is None);
                        assert(mv[i as int].0 == members@[i as int].0@);
                        let mut m = concat("Value for '", members[i].0.as_str());
                        m.append("' must be a string");
                        proof {
                            assert(first_non_string(mv) == Some(i as int)) by {
                                let c = choose|c: int|
                                    0 <= c < mv.len() && mv[c].1 is None && forall|j: int|
                                        0 <= j < c ==> mv[j].1 is Some;
                                assert(0 <= c < mv.len() && mv[c].1 is None && forall|j: int|
                                    0 <= j < c ==> mv[j].1 is Some);
                                if c < i {
                                } else if c > i {
                                }
                            }
                        }
                        return Err(m);
                    },
                }
                i += 1;
            }
            assert(pairs_view(out@) =~= mv.map_values(
                |p: (Seq<char>, Option<Seq<char>>)| (p.0, p.1->0),
            ));
            assert(first_non_string(mv) is None);
            Ok(out)
        },
    }
}

/// Reads the secrets file text `content` of the file at `path`.
pub fn load_secrets(path: &str, content: &str) -> (r: Result<Vec<(String, String)>, String>)
    ensures
        match (r, secrets_of(path@, json_object_strings(content@))) {
            (Ok(v), Ok(w)) => pairs_view(v@) == w,
            (Err(e), Err(f)) => e@ == f,
            _ => false,
        },
{
    secrets_from_parsed(path, parse_json_members(content))
}

} // verus!

verus! {

/// The value of `key` among `secrets` (the first one, should it occur twice).
pub open spec fn lookup(secrets: Seq<(Seq<char>, Seq<char>)>, key: Seq<char>) -> Option<Seq<char>>
    decreases secrets.len(),
{
    if secrets.len() == 0 {
        None
    } else if secrets[0].0 == key {
        Some(secrets[0].1)
    } else {
        lookup(secrets.drop_first(), key)
    }
}

/// The value of `key` among `secrets`.
pub fn find_secret<'a>(secrets: &'a [(String, String)], key: &str) -> (r: Option<&'a String>)
    ensures
        match r {
            Some(v) => lookup(pairs_view(secrets@), key@) == Some(v@),
            None => lookup(pairs_view(secrets@), key@) is None,
        },
{
    let mut i: usize = 0;
    assert(pairs_view(secrets@).skip(0) =~= pairs_view(secrets@));
    while i < secrets.len()
        invariant
            i <= secrets@.len(),
            lookup(pairs_view(secrets@), key@) == lookup(pairs_view(secrets@).skip(i as int), key@),
        decreases secrets@.len() - i,
    {
        let ghost rest = pairs_view(secrets@).skip(i as int);
        assert(rest[0] == (secrets@[i as int].0@, secrets@[i as int].1@));
        assert(rest.drop_first() =~= pairs_view(secrets@).skip(i + 1));
        if str_eq(secrets[i].0.as_str(), key) {
            return Some(&secrets[i].1);
        }
        i += 1;
    }
    assert(pairs_view(secrets@).skip(i as int) =~= Seq::<(Seq<char>, Seq<char>)>::empty());
    None
}

/// The shell line that exports `key` with value `val`.
pub open spec fn export_line(key: Seq<char>, val: Seq<char>) -> Seq<char> {
    "export "@ + key + "='"@ + shell_escaped(val) + "';"@
}

/// The message for a key that the secrets do not hold.
pub open spec fn missing_message(key: Seq<char>) -> Seq<char> {
    "key '"@ + key + "' not found in secrets"@
}

/// Number of leading keys that `secrets` holds.
pub open spec fn known_prefix(keys: Seq<Seq<char>>, secrets: Seq<(Seq<char>, Seq<char>)>) -> nat
    decreases keys.len(),
{
    if keys.len() > 0 && lookup(secrets, keys[0]) is Some {
        1 + known_prefix(keys.drop_first(), secrets)
    } else {
        0
    }
}

proof fn lemma_known_prefix(keys: Seq<Seq<char>>, secrets: Seq<(Seq<char>, Seq<char>)>, k: int)
    requires
        0 <= k <= keys.len(),
        forall|j: int| 0 <= j < k ==> lookup(secrets, #[trigger] keys[j]) is Some,
        k < keys.len() ==> lookup(secrets, keys[k]) is None,
    ensures
        known_prefix(keys, secrets) == k,
    decreases keys.len(),
{
    if k > 0 {
        assert(lookup(secrets, keys[0]) is Some);
        assert forall|j: int| 0 <= j < k - 1 implies lookup(secrets, #[trigger] keys.drop_first()[j]) is Some by {
            assert(keys.drop_first()[j] == keys[j + 1]);
        }
        if k - 1 < keys.drop_first().len() {
            assert(keys.drop_first()[k - 1] == keys[k]);
        }
        lemma_known_prefix(keys.drop_first(), secrets, k - 1);
    }
}

/// `export` lines for `keys`, in order, up to the first key the secrets do
/// not hold; and the message for that key, if there is one.
pub fn export_lines(keys: &[String], secrets: &[(String, String)]) -> (r: (Vec<String>, Option<String>))
    ensures
        ({
            let ks = views(keys@);
            let sv = pairs_view(secrets@);
            let n = known_prefix(ks, sv);
            &&& r.0@.len() == n
            &&& forall|j: int| 0 <= j < n ==> (#[trigger] r.0@[j])@ == export_line(ks[j], lookup(sv, ks[j])->0)
            &&& match r.1 {
                Some(m) => n < ks.len() && m@ == missing_message(ks[n as int]),
                None => n == ks.len(),
            }
        }),
{
    let ghost ks = views(keys@);
    let ghost sv = pairs_view(secrets@);
    let mut lines: Vec<String> = Vec::new();
    let mut i: usize = 0;
    while i < keys.len()
        invariant
            i <= keys@.len(),
            ks == views(keys@),
            sv == pairs_view(secrets@),
            forall|j: int| 0 <= j < i ==> lookup(sv, #[trigger] ks[j]) is Some,
            lines@.len() == i,
            forall|j: int| 0 <= j < i ==> (#[trigger] lines@[j])@ == export_line(ks[j], lookup(sv, ks[j])->0),
        decreases keys@.len() - i,
    {
        assert(ks[i as int] == keys@[i as int]@);
        match find_secret(secrets, keys[i].as_str()) {
            Some(v) => {
                let mut line = concat("export ", keys[i].as_str());
                line.append("='");
                let esc = escape_val(v.as_str());
                line.append(esc.as_str());
                line.append("';");
                lines.push(line);
            },
            None => {
                let mut m = concat("key '", keys[i].as_str());
                m.append("' not found in secrets");
                proof {
                    lemma_known_prefix(ks, sv, i as int);
                }
                return (lines, Some(m));
            },
        }
        i += 1;
    }
    proof {
        lemma_known_prefix(ks, sv, i as int);
    }
    (lines, None)
}

/// The variables to set for running a command with `keys`: each key with its
/// secret, or the message for the first key the secrets do not hold.
pub fn env_assignments(keys: &[String], secrets: &[(String, String)]) -> (r: Result<Vec<(String, String)>, String>)
    ensures
        ({
            let ks = views(keys@);
            let sv = pairs_view(secrets@);
            let n = known_prefix(ks, sv);
            match r {
                Ok(v) => n == ks.len() && v@.len() == ks.len() && forall|j: int|
                    0 <= j < ks.len() ==> (#[trigger] v@[j]).0@ == ks[j] && v@[j].1@ == lookup(sv, ks[j])->0,
                Err(m) => n < ks.len() && m@ == missing_message(ks[n as int]),
            }
        }),
{
    let ghost ks = views(keys@);
    let ghost sv = pairs_view(secrets@);
    let mut out: Vec<(String, String)> = Vec::new();
    let mut i: usize = 0;
    while i < keys.len()
        invariant
            i <= keys@.len(),
            ks == views(keys@),
            sv == pairs_view(secrets@),
            forall|j: int| 0 <= j < i ==> lookup(sv, #[trigger] ks[j]) is Some,
            out@.len() == i,
            forall|j: int| 0 <= j < i ==> (#[trigger] out@[j]).0@ == ks[j] && out@[j].1@ == lookup(sv, ks[j])->0,
        decreases keys@.len() - i,
    {
        assert(ks[i as int] == keys@[i as int]@);
        match find_secret(secrets, keys[i].as_str()) {
            Some(v) => {
                out.push((keys[i].clone(), v.clone()));
            },
            None => {
                let mut m = concat("key '", keys[i].as_str());
                m.append("' not found in secrets");
                proof {
                    lemma_known_prefix(ks, sv, i as int);
                }
                return Err(m);
            },
        }
        i += 1;
    }
    proof {
        lemma_known_prefix(ks, sv, i as int);
    }
    Ok(out)
}

/// The path of the secrets file under home directory `home` (`/root` when
/// `HOME` is unset): `PathBuf::join` of `.config/r/secrets.json`.
pub fn secrets_path(home: Option<&str>) -> (r: String)
    ensures
        r@ == path_join(
            match home {
                Some(h) => h@,
                None => "/root"@,
            },
            ".config/r/secrets.json"@,
        ),
{
    let base = match home {
        Some(h) => h,
        None => "/root",
    };
    proof {
        reveal_strlit(".config/r/secrets.json");
    }
    join_path(base, ".config/r/secrets.json")
}

} // verus!
