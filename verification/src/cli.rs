//! Command-line arguments.
//!
//! `sound-switch [run|list|status|set-default|restore] [--config <path>] [--dry-run]`;
//! the command defaults to `run` and the configuration to `config.json`.

use vstd::prelude::*;
use crate::config::DEFAULT_CONFIG;
use crate::text::same_text;

verus! {

/// The parsed command line.
#[derive(Debug, Clone, PartialEq, Eq)]
pub struct Args {
    pub cmd: String,
    pub config: String,
    pub dry_run: bool,
}

/// What the command line asks for.
#[derive(Debug, Clone, PartialEq, Eq)]
pub enum Cli {
    /// `--help` or `-h`: print the usage and stop.
    Help,
    Run(Args),
}

/// A command line that cannot be used.
#[derive(Debug, Clone, PartialEq, Eq)]
pub enum ArgError {
    /// `--config` is the last argument.
    MissingConfigValue,
    /// An option that is not known.
    Unknown(String),
}

/// The meaning of a command line, as texts.
pub enum ArgsView {
    Help,
    Run { cmd: Seq<char>, config: Seq<char>, dry_run: bool },
    MissingConfigValue,
    Unknown(Seq<char>),
}

/// An argument that starts with `--`.
pub open spec fn is_option(a: Seq<char>) -> bool {
    a.len() >= 2 && a[0] == '-' && a[1] == '-'
}

/// Reads the arguments from position `i` on, given what was read before.
pub open spec fn parse_from(
    raw: Seq<Seq<char>>,
    i: int,
    cmd: Seq<char>,
    config: Seq<char>,
    dry_run: bool,
) -> ArgsView
    decreases raw.len() - i,
{
    if i < 0 || i >= raw.len() {
        ArgsView::Run { cmd, config, dry_run }
    } else {
        let a = raw[i];
        if a == "--help"@ || a == "-h"@ {
            ArgsView::Help
        } else if a == "--config"@ {
            if i + 1 < raw.len() {
                parse_from(raw, i + 2, cmd, raw[i + 1], dry_run)
            } else {
                ArgsView::MissingConfigValue
            }
        } else if a == "--dry-run"@ {
            parse_from(raw, i + 1, cmd, config, true)
        } else if !is_option(a) {
            parse_from(raw, i + 1, a, config, dry_run)
        } else {
            ArgsView::Unknown(a)
        }
    }
}

/// The meaning of the arguments (the program name excluded).
pub open spec fn parse_all(raw: Seq<String>) -> ArgsView {
    parse_from(raw.map_values(|s: String| s@), 0, "run"@, DEFAULT_CONFIG@, false)
}

/// The meaning of what `parse_args` returned.
pub open spec fn view_of(r: Result<Cli, ArgError>) -> ArgsView {
    match r {
        Ok(Cli::Help) => ArgsView::Help,
        Ok(Cli::Run(a)) => ArgsView::Run { cmd: a.cmd@, config: a.config@, dry_run: a.dry_run },
        Err(ArgError::MissingConfigValue) => ArgsView::MissingConfigValue,
        Err(ArgError::Unknown(a)) => ArgsView::Unknown(a@),
    }
}

/// The same meaning with the dry-run flag set.
pub open spec fn with_dry_run(v: ArgsView) -> ArgsView {
    match v {
        ArgsView::Run { cmd, config, .. } => ArgsView::Run { cmd, config, dry_run: true },
        other => other,
    }
}

/// Once set, the dry-run flag stays set: reading on with it set gives what
/// reading on without it gives, with the flag set.
proof fn lemma_dry_run_sticks(raw: Seq<Seq<char>>, i: int, cmd: Seq<char>, config: Seq<char>, dry_run: bool)
    ensures
        with_dry_run(parse_from(raw, i, cmd, config, dry_run)) == parse_from(raw, i, cmd, config, true),
    decreases raw.len() - i,
{
    if 0 <= i < raw.len() {
        let a = raw[i];
        if a == "--help"@ || a == "-h"@ {
        } else if a == "--config"@ {
            if i + 1 < raw.len() {
                lemma_dry_run_sticks(raw, i + 2, cmd, raw[i + 1], dry_run);
            }
        } else if a == "--dry-run"@ {
            lemma_dry_run_sticks(raw, i + 1, cmd, config, true);
        } else if !is_option(a) {
            lemma_dry_run_sticks(raw, i + 1, a, config, dry_run);
        }
    }
}

/// Reading after an inserted argument that has been passed over is reading
/// the arguments without it.
proof fn lemma_read_past_inserted(
    pre: Seq<Seq<char>>,
    x: Seq<char>,
    post: Seq<Seq<char>>,
    m: int,
    cmd: Seq<char>,
    config: Seq<char>,
    dry_run: bool,
)
    requires
        0 <= m <= post.len(),
    ensures
        parse_from(pre + seq![x] + post, pre.len() + 1 + m, cmd, config, dry_run) == parse_from(
            pre + post,
            pre.len() + m,
            cmd,
            config,
            dry_run,
        ),
    decreases post.len() - m,
{
    let with = pre + seq![x] + post;
    let without = pre + post;
    let i = pre.len() + m;
    if m < post.len() {
        assert(with[i + 1] == post[m]);
        assert(without[i] == post[m]);
        let a = post[m];
        if a == "--help"@ || a == "-h"@ {
        } else if a == "--config"@ {
            if m + 1 < post.len() {
                assert(with[i + 2] == post[m + 1]);
                assert(without[i + 1] == post[m + 1]);
                lemma_read_past_inserted(pre, x, post, m + 2, cmd, post[m + 1], dry_run);
            }
        } else if a == "--dry-run"@ {
            lemma_read_past_inserted(pre, x, post, m + 1, cmd, config, true);
        } else if !is_option(a) {
            lemma_read_past_inserted(pre, x, post, m + 1, a, config, dry_run);
        }
    }
}

proof fn lemma_dry_run_inserted(
    pre: Seq<Seq<char>>,
    post: Seq<Seq<char>>,
    j: int,
    cmd: Seq<char>,
    config: Seq<char>,
    dry_run: bool,
)
    requires
        0 <= j <= pre.len(),
        forall|k: int| 0 <= k < pre.len() ==> pre[k] != "--config"@,
    ensures
        parse_from(pre + seq!["--dry-run"@] + post, j, cmd, config, dry_run) == with_dry_run(
            parse_from(pre + post, j, cmd, config, dry_run),
        ),
    decreases pre.len() - j,
{
    let with = pre + seq!["--dry-run"@] + post;
    let without = pre + post;
    if j == pre.len() {
        assert(with[j] == "--dry-run"@);
        reveal_strlit("--dry-run");
        reveal_strlit("--help");
        reveal_strlit("-h");
        reveal_strlit("--config");
        assert("--dry-run"@ != "--help"@);
        assert("--dry-run"@ != "-h"@);
        assert("--dry-run"@ != "--config"@);
        lemma_read_past_inserted(pre, "--dry-run"@, post, 0, cmd, config, true);
        lemma_dry_run_sticks(without, j, cmd, config, dry_run);
    } else {
        let a = pre[j];
        assert(with[j] == a);
        assert(without[j] == a);
        if a == "--help"@ || a == "-h"@ {
        } else if a == "--dry-run"@ {
            lemma_dry_run_inserted(pre, post, j + 1, cmd, config, true);
        } else if !is_option(a) {
            lemma_dry_run_inserted(pre, post, j + 1, a, config, dry_run);
        }
    }
}

/// `--dry-run` takes no value: inserting it into a command line, at a place
/// not right after `--config`, only sets the dry-run flag; the argument after
/// it is read as it would be without it (so `--dry-run set-default` runs
/// `set-default`).
pub proof fn lemma_dry_run_takes_no_value(pre: Seq<String>, flag: String, post: Seq<String>)
    requires
        flag@ == "--dry-run"@,
        forall|k: int| 0 <= k < pre.len() ==> (#[trigger] pre[k])@ != "--config"@,
    ensures
        parse_all(pre + seq![flag] + post) == with_dry_run(parse_all(pre + post)),
{
    let p = pre.map_values(|s: String| s@);
    let q = post.map_values(|s: String| s@);
    assert((pre + seq![flag] + post).map_values(|s: String| s@) =~= p + seq!["--dry-run"@] + q);
    assert((pre + post).map_values(|s: String| s@) =~= p + q);
    assert forall|k: int| 0 <= k < p.len() implies p[k] != "--config"@ by {
        assert(pre[k]@ != "--config"@);
    }
    lemma_dry_run_inserted(p, q, 0, "run"@, DEFAULT_CONFIG@, false);
}

/// Reading stopped before the end: `--help` was met, or an unknown option.
pub open spec fn stops_early(v: ArgsView) -> bool {
    v is Help || v is Unknown
}

/// Reading through leading arguments none of which is `--config`: either it
/// stops on one of them, or it goes on after them with the configuration
/// unchanged.
proof fn lemma_read_through(
    pre: Seq<Seq<char>>,
    rest: Seq<Seq<char>>,
    j: int,
    cmd: Seq<char>,
    config: Seq<char>,
    dry_run: bool,
)
    requires
        0 <= j <= pre.len(),
        forall|k: int| 0 <= k < pre.len() ==> pre[k] != "--config"@,
    ensures
        stops_early(parse_from(pre + rest, j, cmd, config, dry_run)) || exists|c: Seq<char>, d: bool|
            parse_from(pre + rest, j, cmd, config, dry_run) == #[trigger] parse_from(
                pre + rest,
                pre.len() as int,
                c,
                config,
                d,
            ),
    decreases pre.len() - j,
{
    let all = pre + rest;
    if j == pre.len() {
        assert(parse_from(all, j, cmd, config, dry_run) == parse_from(all, pre.len() as int, cmd, config, dry_run));
    } else {
        let a = pre[j];
        assert(all[j] == a);
        if a == "--help"@ || a == "-h"@ {
        } else if a == "--dry-run"@ {
            lemma_read_through(pre, rest, j + 1, cmd, config, true);
        } else if !is_option(a) {
            lemma_read_through(pre, rest, j + 1, a, config, dry_run);
        }
    }
}

proof fn lemma_texts_of(pre: Seq<String>, rest: Seq<String>)
    ensures
        (pre + rest).map_values(|s: String| s@) == pre.map_values(|s: String| s@) + rest.map_values(
            |s: String| s@,
        ),
        forall|k: int| 0 <= k < pre.len() ==> pre.map_values(|s: String| s@)[k] == (#[trigger] pre[k])@,
{
    assert((pre + rest).map_values(|s: String| s@) =~= pre.map_values(|s: String| s@) + rest.map_values(
        |s: String| s@,
    ));
}

/// A plain argument at the end names the command, whatever plain arguments
/// came before: unless reading stopped earlier, the command is the last one.
pub proof fn lemma_last_plain_argument_is_command(pre: Seq<String>, c: String)
    requires
        !is_option(c@),
        c@ != "-h"@,
        forall|k: int| 0 <= k < pre.len() ==> (#[trigger] pre[k])@ != "--config"@,
    ensures
        stops_early(parse_all(pre + seq![c])) || (parse_all(pre + seq![c]) matches ArgsView::Run {
            cmd,
            ..
        } && cmd == c@),
{
    let p = pre.map_values(|s: String| s@);
    lemma_texts_of(pre, seq![c]);
    let rest = seq![c].map_values(|s: String| s@);
    assert(rest =~= seq![c@]);
    assert(c@ != "--help"@ && c@ != "--config"@ && c@ != "--dry-run"@) by {
        reveal_strlit("--help");
        reveal_strlit("--config");
        reveal_strlit("--dry-run");
        assert(is_option("--help"@) && is_option("--config"@) && is_option("--dry-run"@));
    }
    let all = p + rest;
    lemma_read_through(p, rest, 0, "run"@, DEFAULT_CONFIG@, false);
    assert(all[p.len() as int] == c@);
    if !stops_early(parse_from(all, 0, "run"@, DEFAULT_CONFIG@, false)) {
        let (c2, d2) = choose|c2: Seq<char>, d2: bool|
            parse_from(all, 0, "run"@, DEFAULT_CONFIG@, false) == #[trigger] parse_from(
                all,
                p.len() as int,
                c2,
                DEFAULT_CONFIG@,
                d2,
            );
        assert(parse_from(all, p.len() + 1int, c@, DEFAULT_CONFIG@, d2) == (ArgsView::Run {
            cmd: c@,
            config: DEFAULT_CONFIG@,
            dry_run: d2,
        }));
    }
}

/// `--config` takes the argument after it as the configuration path, whatever
/// that argument looks like.
pub proof fn lemma_config_takes_next_argument(pre: Seq<String>, flag: String, path: String)
    requires
        flag@ == "--config"@,
        forall|k: int| 0 <= k < pre.len() ==> (#[trigger] pre[k])@ != "--config"@,
    ensures
        stops_early(parse_all(pre + seq![flag, path])) || (parse_all(pre + seq![flag, path]) matches ArgsView::Run {
            config,
            ..
        } && config == path@),
{
    let p = pre.map_values(|s: String| s@);
    lemma_texts_of(pre, seq![flag, path]);
    let rest = seq![flag, path].map_values(|s: String| s@);
    assert(rest =~= seq!["--config"@, path@]);
    assert("--config"@ != "--help"@ && "--config"@ != "-h"@) by {
        reveal_strlit("--help");
        reveal_strlit("-h");
        reveal_strlit("--config");
        assert("--config"@[2] != "--help"@[2]);
        assert("--config"@.len() != "-h"@.len());
    }
    let all = p + rest;
    lemma_read_through(p, rest, 0, "run"@, DEFAULT_CONFIG@, false);
    assert(all[p.len() as int] == "--config"@);
    assert(all[p.len() + 1int] == path@);
    if !stops_early(parse_from(all, 0, "run"@, DEFAULT_CONFIG@, false)) {
        let (c2, d2) = choose|c2: Seq<char>, d2: bool|
            parse_from(all, 0, "run"@, DEFAULT_CONFIG@, false) == #[trigger] parse_from(
                all,
                p.len() as int,
                c2,
                DEFAULT_CONFIG@,
                d2,
            );
        assert(parse_from(all, p.len() + 2int, c2, path@, d2) == (ArgsView::Run {
            cmd: c2,
            config: path@,
            dry_run: d2,
        }));
    }
}

/// `--config` as the last argument is refused, unless reading stopped earlier.
pub proof fn lemma_config_without_value(pre: Seq<String>, flag: String)
    requires
        flag@ == "--config"@,
        forall|k: int| 0 <= k < pre.len() ==> (#[trigger] pre[k])@ != "--config"@,
    ensures
        stops_early(parse_all(pre + seq![flag])) || parse_all(pre + seq![flag]) is MissingConfigValue,
{
    let p = pre.map_values(|s: String| s@);
    lemma_texts_of(pre, seq![flag]);
    let rest = seq![flag].map_values(|s: String| s@);
    assert(rest =~= seq!["--config"@]);
    assert("--config"@ != "--help"@ && "--config"@ != "-h"@) by {
        reveal_strlit("--help");
        reveal_strlit("-h");
        reveal_strlit("--config");
        assert("--config"@[2] != "--help"@[2]);
        assert("--config"@.len() != "-h"@.len());
    }
    let all = p + rest;
    lemma_read_through(p, rest, 0, "run"@, DEFAULT_CONFIG@, false);
    assert(all[p.len() as int] == "--config"@);
    if !stops_early(parse_from(all, 0, "run"@, DEFAULT_CONFIG@, false)) {
        let (c2, d2) = choose|c2: Seq<char>, d2: bool|
            parse_from(all, 0, "run"@, DEFAULT_CONFIG@, false) == #[trigger] parse_from(
                all,
                p.len() as int,
                c2,
                DEFAULT_CONFIG@,
                d2,
            );
        assert(parse_from(all, p.len() as int, c2, DEFAULT_CONFIG@, d2) is MissingConfigValue);
    }
}

/// `--help` or `-h` asks for the usage, whatever follows, unless an unknown
/// option came before it.
pub proof fn lemma_help_wins(pre: Seq<String>, h: String, post: Seq<String>)
    requires
        h@ == "--help"@ || h@ == "-h"@,
        forall|k: int| 0 <= k < pre.len() ==> (#[trigger] pre[k])@ != "--config"@,
    ensures
        parse_all(pre + seq![h] + post) is Help || parse_all(pre + seq![h] + post) is Unknown,
{
    let p = pre.map_values(|s: String| s@);
    lemma_texts_of(pre, seq![h] + post);
    assert(pre + seq![h] + post == pre + (seq![h] + post));
    let rest = (seq![h] + post).map_values(|s: String| s@);
    assert(rest[0] == h@);
    lemma_read_through(p, rest, 0, "run"@, DEFAULT_CONFIG@, false);
    assert((p + rest)[p.len() as int] == h@);
}

/// An option that is not known is refused by its own text, whatever follows,
/// unless reading stopped earlier.
pub proof fn lemma_unknown_option_refused(pre: Seq<String>, u: String, post: Seq<String>)
    requires
        is_option(u@),
        u@ != "--help"@,
        u@ != "--config"@,
        u@ != "--dry-run"@,
        forall|k: int| 0 <= k < pre.len() ==> (#[trigger] pre[k])@ != "--config"@,
    ensures
        stops_early(parse_all(pre + seq![u] + post)),
        !(parse_all(pre + seq![u] + post) is Help) ==> parse_all(pre + seq![u] + post) == ArgsView::Unknown(u@)
            || exists|k: int| 0 <= k < pre.len() && parse_all(pre + seq![u] + post) == ArgsView::Unknown(#[trigger] pre[k]@),
{
    let p = pre.map_values(|s: String| s@);
    lemma_texts_of(pre, seq![u] + post);
    assert(pre + seq![u] + post == pre + (seq![u] + post));
    let rest = (seq![u] + post).map_values(|s: String| s@);
    assert(rest[0] == u@);
    reveal_strlit("-h");
    assert(u@ != "-h"@);
    lemma_unknown_from(p, rest, 0, "run"@, DEFAULT_CONFIG@, false, u@);
    assert(forall|k: int| 0 <= k < p.len() ==> p[k] == (#[trigger] pre[k])@);
}

proof fn lemma_unknown_from(
    pre: Seq<Seq<char>>,
    rest: Seq<Seq<char>>,
    j: int,
    cmd: Seq<char>,
    config: Seq<char>,
    dry_run: bool,
    u: Seq<char>,
)
    requires
        0 <= j <= pre.len(),
        forall|k: int| 0 <= k < pre.len() ==> pre[k] != "--config"@,
        rest.len() > 0,
        rest[0] == u,
        is_option(u),
        u != "--help"@,
        u != "-h"@,
        u != "--config"@,
        u != "--dry-run"@,
    ensures
        parse_from(pre + rest, j, cmd, config, dry_run) is Help || parse_from(pre + rest, j, cmd, config, dry_run)
            == ArgsView::Unknown(u) || exists|k: int|
            0 <= k < pre.len() && parse_from(pre + rest, j, cmd, config, dry_run) == ArgsView::Unknown(#[trigger] pre[k]),
    decreases pre.len() - j,
{
    let all = pre + rest;
    if j == pre.len() {
        assert(all[j] == u);
    } else {
        let a = pre[j];
        assert(all[j] == a);
        if a == "--help"@ || a == "-h"@ {
        } else if a == "--dry-run"@ {
            lemma_unknown_from(pre, rest, j + 1, cmd, config, true, u);
        } else if !is_option(a) {
            lemma_unknown_from(pre, rest, j + 1, a, config, dry_run, u);
        } else {
            assert(parse_from(all, j, cmd, config, dry_run) == ArgsView::Unknown(pre[j]));
        }
    }
}

fn starts_with_dashes(a: &str) -> (r: bool)
    ensures
        r == is_option(a@),
{
    let n = a.unicode_len();
    n >= 2 && a.get_char(0) == '-' && a.get_char(1) == '-'
}

/// Reads the command-line arguments that follow the program name.
pub fn parse_args(raw: &Vec<String>) -> (r: Result<Cli, ArgError>)
    ensures
        view_of(r) == parse_all(raw@),
{
    let ghost texts = raw@.map_values(|s: String| s@);
    let mut cmd = String::from_str("run");
    let mut config = String::from_str(DEFAULT_CONFIG);
    let mut dry_run = false;
    let mut i: usize = 0;
    while i < raw.len()
        invariant
            texts == raw@.map_values(|s: String| s@),
            i <= raw@.len(),
            parse_all(raw@) == parse_from(texts, i as int, cmd@, config@, dry_run),
        decreases raw@.len() - i,
    {
        let a = raw[i].as_str();
        assert(texts[i as int] == a@);
        if same_text(a, "--help") || same_text(a, "-h") {
            return Ok(Cli::Help);
        } else if same_text(a, "--config") {
            if i + 1 < raw.len() {
                config = raw[i + 1].clone();
                assert(texts[i + 1] == config@);
                i += 2;
            } else {
                return Err(ArgError::MissingConfigValue);
            }
        } else if same_text(a, "--dry-run") {
            dry_run = true;
            i += 1;
        } else if !starts_with_dashes(a) {
            cmd = raw[i].clone();
            i += 1;
        } else {
            return Err(ArgError::Unknown(raw[i].clone()));
        }
    }
    Ok(Cli::Run(Args { cmd, config, dry_run }))
}

} // verus!
