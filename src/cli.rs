//! Command-line argument parser.
//!
//! The arguments arrive as plain strings, together with the value of the
//! secret key environment variable; reading them is left to the caller.

use vstd::prelude::*;
use crate::config::{equals_index, lemma_equals_index};
use crate::version::str_eq;

verus! {

/// The configuration for a `store` command.
pub struct Store {
    pub secret_key: Option<String>,
    pub secret_key_path: Option<String>,
    pub output_path: String,
    pub version: String,
    pub image_path: String,
}

/// Where the secret key of a `store` command comes from.
pub enum KeySource {
    /// The key itself, given on the command line or in the environment.
    Value(String),
    /// A file that holds the key.
    File(String),
    Missing,
}

impl Store {
    /// The key given as a value wins over a key file.
    pub fn key_source(&self) -> (r: KeySource)
        ensures
            self.secret_key matches Some(k) ==> (r matches KeySource::Value(v) && v@ == k@),
            self.secret_key is None ==> (self.secret_key_path matches Some(p) ==> (r matches KeySource::File(
                q,
            ) && q@ == p@)),
            (self.secret_key is None && self.secret_key_path is None) ==> r is Missing,
    {
        match &self.secret_key {
            Some(k) => KeySource::Value(clone_string(k)),
            None => match &self.secret_key_path {
                Some(p) => KeySource::File(clone_string(p)),
                None => KeySource::Missing,
            },
        }
    }
}

pub enum Cmd {
    Fetch(Vec<String>),
    Init(Vec<String>),
    Store(Store),
    GenKey,
    Help(String),
    Version,
}

/// One argument: plain, a short flag (`-k`) or a long flag (`--key`).
pub enum Arg<T> {
    Plain(T),
    Short(T),
    Long(T),
}

impl Arg<String> {
    pub open spec fn view_arg(&self) -> Arg<Seq<char>> {
        match self {
            Arg::Plain(x) => Arg::Plain(x@),
            Arg::Short(x) => Arg::Short(x@),
            Arg::Long(x) => Arg::Long(x@),
        }
    }

    fn as_ref(&self) -> (r: Arg<&str>)
        ensures
            r.view_str() == self.view_arg(),
    {
        match self {
            Arg::Plain(x) => Arg::Plain(x.as_str()),
            Arg::Short(x) => Arg::Short(x.as_str()),
            Arg::Long(x) => Arg::Long(x.as_str()),
        }
    }

    fn into_string(self) -> (r: String)
        ensures
            r@ == arg_text(self.view_arg()),
    {
        match self {
            Arg::Plain(x) => x,
            Arg::Short(x) => x,
            Arg::Long(x) => x,
        }
    }
}

impl<'a> Arg<&'a str> {
    pub open spec fn view_str(&self) -> Arg<Seq<char>> {
        match self {
            Arg::Plain(x) => Arg::Plain(x@),
            Arg::Short(x) => Arg::Short(x@),
            Arg::Long(x) => Arg::Long(x@),
        }
    }
}

pub open spec fn arg_text(a: Arg<Seq<char>>) -> Seq<char> {
    match a {
        Arg::Plain(x) => x,
        Arg::Short(x) => x,
        Arg::Long(x) => x,
    }
}

/// The arguments that one command-line word stands for: `--foo=bar` is
/// `--foo` then `bar`, and `-fbar` is `-f` then `bar`.
pub open spec fn split_word(a: Seq<char>) -> Seq<Arg<Seq<char>>> {
    if a.len() >= 2 && a[0] == '-' && a[1] == '-' {
        let flag = a.subrange(2, a.len() as int);
        let i = equals_index(flag);
        if i < flag.len() {
            seq![Arg::Long(flag.subrange(0, i)), Arg::Plain(flag.subrange(i + 1, flag.len() as int))]
        } else {
            seq![Arg::Long(flag)]
        }
    } else if a.len() >= 1 && a[0] == '-' {
        let flag = a.subrange(1, a.len() as int);
        if flag.len() > 1 {
            seq![Arg::Short(flag.subrange(0, 1)), Arg::Plain(flag.subrange(1, flag.len() as int))]
        } else {
            seq![Arg::Short(flag)]
        }
    } else {
        seq![Arg::Plain(a)]
    }
}

/// The arguments of the words from index `i` on; after a word `--` every word
/// is plain.
pub open spec fn tokens_from(words: Seq<Seq<char>>, i: int, raw: bool) -> Seq<Arg<Seq<char>>>
    decreases words.len() - i,
{
    if i < 0 || i >= words.len() {
        seq![]
    } else if raw {
        seq![Arg::Plain(words[i])] + tokens_from(words, i + 1, true)
    } else if words[i] == seq!['-', '-'] {
        tokens_from(words, i + 1, true)
    } else {
        split_word(words[i]) + tokens_from(words, i + 1, false)
    }
}

pub open spec fn is_help(t: Arg<Seq<char>>) -> bool {
    t == Arg::Short("h"@) || t == Arg::Long("help"@)
}

/// What a command holds.
pub enum CmdView {
    Fetch(Seq<Seq<char>>),
    Init(Seq<Seq<char>>),
    Store(StoreView),
    GenKey,
    Help(Seq<char>),
    Version,
}

pub struct StoreView {
    pub secret_key: Option<Seq<char>>,
    pub secret_key_path: Option<Seq<char>>,
    pub output_path: Option<Seq<char>>,
    pub version: Option<Seq<char>>,
    pub image_path: Option<Seq<char>>,
}

/// How an argument is written on the command line.
pub open spec fn arg_display(a: Arg<Seq<char>>) -> Seq<char> {
    match a {
        Arg::Plain(x) => x,
        Arg::Short(x) => "-"@ + x,
        Arg::Long(x) => "--"@ + x,
    }
}

/// The message for an argument that was not expected.
pub open spec fn unexpected_msg(a: Arg<Seq<char>>) -> Seq<char> {
    "Unexpected argument '"@ + arg_display(a) + "'."@
}

/// The message for an option of `store` that no value follows.
pub open spec fn missing_value_msg(opt: int) -> Seq<char> {
    if opt == 1 {
        "Expected secret key after --key."@
    } else if opt == 2 {
        "Expected key path after --key-file."@
    } else {
        "Expected server directory after --output."@
    }
}

/// A `help` request at index `i`: nothing may follow it.
pub open spec fn help_at(toks: Seq<Arg<Seq<char>>>, i: int, cmd: Seq<char>) -> Result<CmdView, Seq<char>> {
    if i + 1 >= toks.len() {
        Ok(CmdView::Help(cmd))
    } else {
        Err(unexpected_msg(toks[i + 1]))
    }
}

/// The `fetch` command from argument `i` on, with the config files so far.
pub open spec fn fetch_from(toks: Seq<Arg<Seq<char>>>, i: int, files: Seq<Seq<char>>, init: bool) -> Result<
    CmdView,
    Seq<char>,
>
    decreases toks.len() - i,
{
    if i < 0 || i >= toks.len() {
        if files.len() == 0 {
            Err("Expected at least one fetch config filename."@)
        } else if init {
            Ok(CmdView::Init(files))
        } else {
            Ok(CmdView::Fetch(files))
        }
    } else {
        match toks[i] {
            Arg::Plain(x) => fetch_from(toks, i + 1, files.push(x), init),
            t => if t == Arg::Long("init"@) {
                fetch_from(toks, i + 1, files, true)
            } else if is_help(t) {
                help_at(toks, i, "fetch"@)
            } else {
                Err(unexpected_msg(t))
            },
        }
    }
}

/// The option that a flag of `store` sets: 1 the key, 2 the key file, 3 the
/// output directory, 0 none.
pub open spec fn store_option(t: Arg<Seq<char>>) -> int {
    if t == Arg::Short("k"@) || t == Arg::Long("key"@) {
        1
    } else if t == Arg::Short("f"@) || t == Arg::Long("key-file"@) {
        2
    } else if t == Arg::Short("o"@) || t == Arg::Long("output"@) {
        3
    } else {
        0
    }
}

/// The `store` command once all arguments are read: the secret key comes from
/// `--key`, else from `--key-file`, else from the environment.
pub open spec fn store_finish(st: StoreView, env_key: Option<Seq<char>>) -> Result<CmdView, Seq<char>> {
    let st2 = if st.secret_key is None && st.secret_key_path is None {
        StoreView { secret_key: env_key, ..st }
    } else {
        st
    };
    if st2.secret_key is None && st2.secret_key_path is None {
        Err(MSG_NO_SECRET_KEY@)
    } else if st2.output_path is None {
        Err("Server directory not provided. Pass it via --output."@)
    } else if st2.image_path is None {
        Err("Image path not provided. See 'tako store --help' for usage."@)
    } else if st2.version is None {
        Err("Version not provided. See 'tako store --help' for usage."@)
    } else {
        Ok(CmdView::Store(st2))
    }
}

/// The `store` command from argument `i` on.
pub open spec fn store_from(
    toks: Seq<Arg<Seq<char>>>,
    i: int,
    st: StoreView,
    env_key: Option<Seq<char>>,
) -> Result<CmdView, Seq<char>>
    decreases toks.len() - i,
{
    if i < 0 || i >= toks.len() {
        store_finish(st, env_key)
    } else {
        let t = toks[i];
        let opt = store_option(t);
        if opt != 0 {
            if i + 1 < toks.len() {
                if toks[i + 1] is Plain {
                    let v = Some(arg_text(toks[i + 1]));
                    let st2 = if opt == 1 {
                        StoreView { secret_key: v, ..st }
                    } else if opt == 2 {
                        StoreView { secret_key_path: v, ..st }
                    } else {
                        StoreView { output_path: v, ..st }
                    };
                    store_from(toks, i + 2, st2, env_key)
                } else {
                    Err(unexpected_msg(toks[i + 1]) + " "@ + missing_value_msg(opt))
                }
            } else {
                Err(missing_value_msg(opt))
            }
        } else if is_help(t) {
            help_at(toks, i, "store"@)
        } else if t is Plain && st.image_path is None {
            store_from(toks, i + 1, StoreView { image_path: Some(arg_text(t)), ..st }, env_key)
        } else if t is Plain && st.version is None {
            store_from(toks, i + 1, StoreView { version: Some(arg_text(t)), ..st }, env_key)
        } else {
            Err(unexpected_msg(t))
        }
    }
}

pub open spec fn empty_store() -> StoreView {
    StoreView { secret_key: None, secret_key_path: None, output_path: None, version: None, image_path: None }
}

/// The command that the arguments ask for, or the message of what is wrong
/// with them.
pub open spec fn command_of(toks: Seq<Arg<Seq<char>>>, env_key: Option<Seq<char>>) -> Result<CmdView, Seq<char>> {
    if toks.len() == 0 {
        Err("No command provided. See --help."@)
    } else {
        let t = toks[0];
        if t == Arg::Plain("fetch"@) {
            fetch_from(toks, 1, seq![], false)
        } else if t == Arg::Plain("store"@) {
            store_from(toks, 1, empty_store(), env_key)
        } else if t == Arg::Plain("gen-key"@) {
            if toks.len() == 1 { Ok(CmdView::GenKey) } else { Err(unexpected_msg(toks[1])) }
        } else if t == Arg::Long("version"@) {
            if toks.len() == 1 { Ok(CmdView::Version) } else { Err(unexpected_msg(toks[1])) }
        } else if is_help(t) {
            if toks.len() == 1 {
                Ok(CmdView::Help("tako"@))
            } else if toks[1] is Plain {
                if toks.len() == 2 { Ok(CmdView::Help(arg_text(toks[1]))) } else { Err(unexpected_msg(toks[2])) }
            } else {
                Err(unexpected_msg(toks[1]))
            }
        } else {
            Err(unexpected_msg(t))
        }
    }
}

pub const MSG_NO_SECRET_KEY: &'static str = "Secret key not provided. Pass it via --key, read if from a key file with --key-file, or set the TAKO_SECRET_KEY environment variable.";

pub open spec fn string_seq(v: Seq<String>) -> Seq<Seq<char>> {
    Seq::new(v.len(), |i: int| v[i]@)
}

pub open spec fn opt_view(o: Option<String>) -> Option<Seq<char>> {
    match o {
        Some(s) => Some(s@),
        None => None,
    }
}

pub open spec fn cmd_view(c: Cmd) -> CmdView {
    match c {
        Cmd::Fetch(f) => CmdView::Fetch(string_seq(f@)),
        Cmd::Init(f) => CmdView::Init(string_seq(f@)),
        Cmd::Store(s) => CmdView::Store(
            StoreView {
                secret_key: opt_view(s.secret_key),
                secret_key_path: opt_view(s.secret_key_path),
                output_path: Some(s.output_path@),
                version: Some(s.version@),
                image_path: Some(s.image_path@),
            },
        ),
        Cmd::GenKey => CmdView::GenKey,
        Cmd::Help(s) => CmdView::Help(s@),
        Cmd::Version => CmdView::Version,
    }
}

pub open spec fn arg_views(v: Seq<Arg<String>>) -> Seq<Arg<Seq<char>>> {
    Seq::new(v.len(), |i: int| v[i].view_arg())
}

/// Parses the command line; the first word is the program's name. The secret
/// key environment variable is used only by `store`, when neither `--key`
/// nor `--key-file` is given.
pub fn parse(args: &Vec<String>, env_secret_key: Option<String>) -> (r: Result<Cmd, String>)
    ensures
        r matches Ok(c) ==> command_of(tokens_from(string_seq(args@), 1, false), opt_view(env_secret_key)) == Ok::<
            CmdView,
            Seq<char>,
        >(cmd_view(c)),
        r matches Err(m) ==> command_of(tokens_from(string_seq(args@), 1, false), opt_view(env_secret_key)) == Err::<
            CmdView,
            Seq<char>,
        >(m@),
{
    let toks = tokenize(args);
    if toks.len() == 0 {
        return Err(String::from_str("No command provided. See --help."));
    }
    let first = toks[0].as_ref();
    proof {
        reveal_strlit("fetch");
        reveal_strlit("store");
        reveal_strlit("gen-key");
        reveal_strlit("version");
        reveal_strlit("h");
        reveal_strlit("help");
        reveal_strlit("tako");
    }
    match first {
        Arg::Plain(x) => {
            if str_eq(x, "fetch") {
                return parse_fetch(&toks);
            } else if str_eq(x, "store") {
                return parse_store(&toks, env_secret_key);
            } else if str_eq(x, "gen-key") {
                if toks.len() == 1 {
                    return Ok(Cmd::GenKey);
                }
                return unexpected(&toks[1]);
            }
        },
        Arg::Long(x) => {
            if str_eq(x, "version") {
                if toks.len() == 1 {
                    return Ok(Cmd::Version);
                }
                return unexpected(&toks[1]);
            }
        },
        Arg::Short(_) => {},
    }
    if is_help_arg(&toks[0]) {
        if toks.len() == 1 {
            return Ok(Cmd::Help(String::from_str("tako")));
        }
        match &toks[1] {
            Arg::Plain(c) => {
                if toks.len() == 2 {
                    return Ok(Cmd::Help(c.clone()));
                }
                return unexpected(&toks[2]);
            },
            a => {
                return unexpected(a);
            },
        }
    }
    unexpected(&toks[0])
}

/// Appends the arguments that one word stands for.
fn split_word_into(a: &str, out: &mut Vec<Arg<String>>)
    ensures
        arg_views(final(out)@) == arg_views(old(out)@) + split_word(a@),
{
    let ghost old_v = arg_views(out@);
    let n = a.unicode_len();
    if n >= 2 && a.get_char(0) == '-' && a.get_char(1) == '-' {
        let flag = a.substring_char(2, n);
        let m = n - 2;
        let mut i: usize = 0;
        while i < m && flag.get_char(i) != '='
            invariant
                m == flag@.len(),
                i <= m,
                forall|k: int| 0 <= k < i ==> flag@[k] != '=',
            decreases m - i,
        {
            i += 1;
        }
        proof {
            lemma_equals_index(flag@, i as int);
        }
        if i < m {
            out.push(Arg::Long(String::from_str(flag.substring_char(0, i))));
            out.push(Arg::Plain(String::from_str(flag.substring_char(i + 1, m))));
        } else {
            out.push(Arg::Long(String::from_str(flag)));
        }
    } else if n >= 1 && a.get_char(0) == '-' {
        let flag = a.substring_char(1, n);
        if n - 1 > 1 {
            out.push(Arg::Short(String::from_str(flag.substring_char(0, 1))));
            out.push(Arg::Plain(String::from_str(flag.substring_char(1, n - 1))));
        } else {
            out.push(Arg::Short(String::from_str(flag)));
        }
    } else {
        out.push(Arg::Plain(String::from_str(a)));
    }
    proof {
        assert(arg_views(out@) =~= old_v + split_word(a@));
    }
}

/// The arguments of the command line, without the program's name.
fn tokenize(args: &Vec<String>) -> (r: Vec<Arg<String>>)
    ensures
        arg_views(r@) == tokens_from(string_seq(args@), 1, false),
{
    let ghost ws = string_seq(args@);
    let mut out: Vec<Arg<String>> = Vec::new();
    let mut raw = false;
    let mut i: usize = 1;
    proof {
        assert(arg_views(out@) =~= seq![]);
        assert(seq![] + tokens_from(ws, 1, false) =~= tokens_from(ws, 1, false));
    }
    while i < args.len()
        invariant
            ws == string_seq(args@),
            1 <= i,
            i <= args.len() || args.len() == 0,
            arg_views(out@) + tokens_from(ws, i as int, raw) == tokens_from(ws, 1, false),
        decreases args.len() - i,
    {
        let w = args[i].as_str();
        let ghost before = arg_views(out@);
        proof {
            assert(ws[i as int] == w@);
        }
        if raw {
            out.push(Arg::Plain(String::from_str(w)));
            proof {
                assert(arg_views(out@) =~= before.push(Arg::Plain(w@)));
                assert(before + (seq![Arg::Plain(w@)] + tokens_from(ws, i + 1, true)) =~= arg_views(out@)
                    + tokens_from(ws, i + 1, true));
            }
        } else if str_eq(w, "--") {
            proof {
                reveal_strlit("--");
                assert(w@ =~= seq!['-', '-']);
            }
            raw = true;
        } else {
            proof {
                reveal_strlit("--");
                assert("--"@ =~= seq!['-', '-']);
            }
            split_word_into(w, &mut out);
            proof {
                assert(before + (split_word(w@) + tokens_from(ws, i + 1, false)) =~= arg_views(out@)
                    + tokens_from(ws, i + 1, false));
            }
        }
        i += 1;
    }
    proof {
        assert(tokens_from(ws, i as int, raw) =~= seq![]);
        assert(arg_views(out@) + seq![] =~= arg_views(out@));
    }
    out
}

fn clone_string(s: &String) -> (r: String)
    ensures
        r@ == s@,
{
    String::from_str(s.as_str())
}

fn parse_fetch(toks: &Vec<Arg<String>>) -> (r: Result<Cmd, String>)
    requires
        toks.len() >= 1,
    ensures
        r matches Ok(c) ==> fetch_from(arg_views(toks@), 1, seq![], false) == Ok::<CmdView, Seq<char>>(cmd_view(c)),
        r matches Err(m) ==> fetch_from(arg_views(toks@), 1, seq![], false) == Err::<CmdView, Seq<char>>(m@),
{
    let ghost av = arg_views(toks@);
    let mut files: Vec<String> = Vec::new();
    let mut is_init = false;
    let mut i: usize = 1;
    proof {
        assert(string_seq(files@) =~= seq![]);
        reveal_strlit("init");
        reveal_strlit("fetch");
    }
    while i < toks.len()
        invariant
            av == arg_views(toks@),
            1 <= i <= toks.len(),
            fetch_from(av, i as int, string_seq(files@), is_init) == fetch_from(av, 1, seq![], false),
        decreases toks.len() - i,
    {
        let t = &toks[i];
        proof {
            assert(av[i as int] == t.view_arg());
        }
        match t {
            Arg::Plain(x) => {
                let ghost fv = string_seq(files@);
                files.push(clone_string(x));
                proof {
                    assert(string_seq(files@) =~= fv.push(x@));
                }
            },
            _ => {
                let is_init_flag = match t {
                    Arg::Long(x) => str_eq(x.as_str(), "init"),
                    _ => false,
                };
                if is_init_flag {
                    is_init = true;
                } else if is_help_arg(t) {
                    if i + 1 == toks.len() {
                        return Ok(Cmd::Help(String::from_str("fetch")));
                    }
                    return unexpected(&toks[i + 1]);
                } else {
                    return unexpected(t);
                }
            },
        }
        i += 1;
    }
    if files.len() == 0 {
        return Err(String::from_str("Expected at least one fetch config filename."));
    }
    if is_init {
        Ok(Cmd::Init(files))
    } else {
        Ok(Cmd::Fetch(files))
    }
}

fn store_option_of(a: &Arg<String>) -> (r: u8)
    ensures
        r as int == store_option(a.view_arg()),
{
    proof {
        reveal_strlit("k");
        reveal_strlit("key");
        reveal_strlit("f");
        reveal_strlit("key-file");
        reveal_strlit("o");
        reveal_strlit("output");
    }
    match a {
        Arg::Short(x) => {
            if str_eq(x.as_str(), "k") {
                1
            } else if str_eq(x.as_str(), "f") {
                2
            } else if str_eq(x.as_str(), "o") {
                3
            } else {
                0
            }
        },
        Arg::Long(x) => {
            if str_eq(x.as_str(), "key") {
                1
            } else if str_eq(x.as_str(), "key-file") {
                2
            } else if str_eq(x.as_str(), "output") {
                3
            } else {
                0
            }
        },
        Arg::Plain(_) => 0,
    }
}

fn parse_store(toks: &Vec<Arg<String>>, env_secret_key: Option<String>) -> (r: Result<Cmd, String>)
    requires
        toks.len() >= 1,
    ensures
        r matches Ok(c) ==> store_from(arg_views(toks@), 1, empty_store(), opt_view(env_secret_key)) == Ok::<
            CmdView,
            Seq<char>,
        >(cmd_view(c)),
        r matches Err(m) ==> store_from(arg_views(toks@), 1, empty_store(), opt_view(env_secret_key)) == Err::<
            CmdView,
            Seq<char>,
        >(m@),
{
    let ghost av = arg_views(toks@);
    let ghost env = opt_view(env_secret_key);
    let mut secret_key: Option<String> = None;
    let mut secret_key_path: Option<String> = None;
    let mut output_path: Option<String> = None;
    let mut image_path: Option<String> = None;
    let mut version: Option<String> = None;
    let mut i: usize = 1;
    proof {
        reveal_strlit("store");
    }
    while i < toks.len()
        invariant
            av == arg_views(toks@),
            env == opt_view(env_secret_key),
            1 <= i <= toks.len() + 1,
            store_from(av, i as int, StoreView {
                secret_key: opt_view(secret_key),
                secret_key_path: opt_view(secret_key_path),
                output_path: opt_view(output_path),
                version: opt_view(version),
                image_path: opt_view(image_path),
            }, env) == store_from(av, 1, empty_store(), env),
        decreases toks.len() + 1 - i,
    {
        let t = &toks[i];
        proof {
            assert(av[i as int] == t.view_arg());
        }
        let opt = store_option_of(t);
        if opt != 0 {
            if i + 1 < toks.len() {
                proof {
                    assert(av[i + 1] == toks[i + 1].view_arg());
                }
                match &toks[i + 1] {
                    Arg::Plain(v) => {
                        let value = Some(clone_string(v));
                        if opt == 1 {
                            secret_key = value;
                        } else if opt == 2 {
                            secret_key_path = value;
                        } else {
                            output_path = value;
                        }
                        i += 2;
                    },
                    a => {
                        let mut msg = unexpected_text(a);
                        msg.append(" ");
                        msg.append(missing_value_text(opt));
                        return Err(msg);
                    },
                }
            } else {
                return Err(String::from_str(missing_value_text(opt)));
            }
        } else if is_help_arg(t) {
            if i + 1 == toks.len() {
                return Ok(Cmd::Help(String::from_str("store")));
            }
            return unexpected(&toks[i + 1]);
        } else {
            match t {
                Arg::Plain(x) => {
                    if image_path.is_none() {
                        image_path = Some(clone_string(x));
                    } else if version.is_none() {
                        version = Some(clone_string(x));
                    } else {
                        return unexpected(t);
                    }
                },
                _ => {
                    return unexpected(t);
                },
            }
            i += 1;
        }
    }
    if secret_key.is_none() && secret_key_path.is_none() {
        match env_secret_key {
            Some(v) => {
                secret_key = Some(v);
            },
            None => {
                return Err(String::from_str(MSG_NO_SECRET_KEY));
            },
        }
    }
    let output_path = match output_path {
        Some(o) => o,
        None => {
            return Err(String::from_str("Server directory not provided. Pass it via --output."));
        },
    };
    let image_path = match image_path {
        Some(p) => p,
        None => {
            return Err(String::from_str("Image path not provided. See 'tako store --help' for usage."));
        },
    };
    let version = match version {
        Some(v) => v,
        None => {
            return Err(String::from_str("Version not provided. See 'tako store --help' for usage."));
        },
    };
    Ok(Cmd::Store(Store { secret_key, secret_key_path, output_path, version, image_path }))
}

fn is_help_arg(a: &Arg<String>) -> (r: bool)
    ensures
        r == is_help(a.view_arg()),
{
    proof {
        reveal_strlit("h");
        reveal_strlit("help");
    }
    match a {
        Arg::Short(x) => str_eq(x.as_str(), "h"),
        Arg::Long(x) => str_eq(x.as_str(), "help"),
        Arg::Plain(_) => false,
    }
}

/// What an option of `store` lacks when no value follows it.
fn missing_value_text(opt: u8) -> (r: &'static str)
    ensures
        r@ == missing_value_msg(opt as int),
{
    if opt == 1 {
        "Expected secret key after --key."
    } else if opt == 2 {
        "Expected key path after --key-file."
    } else {
        "Expected server directory after --output."
    }
}

/// An error that names an argument that was not expected.
fn unexpected<T>(arg: &Arg<String>) -> (r: Result<T, String>)
    ensures
        r matches Err(m) && m@ == unexpected_msg(arg.view_arg()),
{
    Err(unexpected_text(arg))
}

/// The message for an argument that was not expected, with its dashes.
fn unexpected_text(arg: &Arg<String>) -> (r: String)
    ensures
        r@ == unexpected_msg(arg.view_arg()),
{
    let mut msg = String::from_str("Unexpected argument '");
    let ghost head = msg@;
    match arg {
        Arg::Plain(x) => msg.append(x.as_str()),
        Arg::Short(x) => {
            msg.append("-");
            msg.append(x.as_str());
            proof {
                assert(msg@ =~= head + ("-"@ + x@));
            }
        },
        Arg::Long(x) => {
            msg.append("--");
            msg.append(x.as_str());
            proof {
                assert(msg@ =~= head + ("--"@ + x@));
            }
        },
    }
    msg.append("'.");
    msg
}

} // verus!
