//! Decisions of the portable self-updater: the arguments of the detached updater
//! process, release versions, the release asset to download, and the address of
//! the health check after an upgrade.

use vstd::prelude::*;
use vstd::string::*;
use crate::text::{
    chars_of, string_from, concat, seq_equal, trim, trim_spec, trim_start_char, trim_end_char, trim_start_by,
    trim_end_by, char_pred, rfind_char, is_last_index_of, slice_copy, contains_char, starts_with, ends_with,
    contains, starts_with_spec, ends_with_spec, occurs_spec, parse_u32, parse_unsigned_spec, u64_text, decimal_text,
};

verus! {

/// The flag that starts the executable as the updater.
pub const APPLY_UPDATE_MODE_FLAG: &'static str = "--apply-update";

/// The start of the portable package's asset name.
pub const PORTABLE_ASSET_PREFIX: &'static str = "timeline-portable-";

/// Everything the detached updater process needs.
#[derive(Clone, Debug)]
pub struct ApplyUpdateArgs {
    pub install_root: String,
    pub target_version: String,
    pub asset_url: String,
    pub asset_name: String,
    pub parent_pid: u32,
    pub listen_addr: String,
    pub restart_args: Vec<String>,
}

/// Why the updater's arguments are rejected.
#[derive(Clone, Debug)]
pub enum ApplyArgsError {
    /// The named flag is the last argument and has no value.
    MissingValue(String),
    InvalidParentPid,
    UnknownArgument(String),
    /// A required flag is absent; its name without the dashes.
    Missing(&'static str),
}

/// The values collected so far while reading the updater's arguments.
pub struct ArgsSoFar {
    pub install_root: Option<Seq<char>>,
    pub target_version: Option<Seq<char>>,
    pub asset_url: Option<Seq<char>>,
    pub asset_name: Option<Seq<char>>,
    pub parent_pid: Option<int>,
    pub listen_addr: Option<Seq<char>>,
    pub restart_args: Seq<Seq<char>>,
}

/// What reading the arguments from `i` on fails with: a flag without a value, an
/// unparsable process id, or an unknown argument.
pub enum ArgsProblem {
    MissingValue(Seq<char>),
    InvalidParentPid,
    Unknown(Seq<char>),
}

pub open spec fn is_value_flag(a: Seq<char>) -> bool {
    a == "--install-root"@ || a == "--target-version"@ || a == "--asset-url"@ || a == "--asset-name"@
        || a == "--parent-pid"@ || a == "--listen-addr"@ || a == "--restart-arg"@
}

/// Reads the arguments from index `i`: each known flag takes the next argument as its
/// value (a repeated flag keeps the last value; `--restart-arg` values accumulate).
pub open spec fn read_args(raw: Seq<Seq<char>>, i: int, acc: ArgsSoFar) -> Result<ArgsSoFar, ArgsProblem>
    decreases raw.len() - i,
{
    if i < 0 || i >= raw.len() {
        Ok(acc)
    } else {
        let flag = raw[i];
        if !is_value_flag(flag) {
            Err(ArgsProblem::Unknown(flag))
        } else if i + 1 >= raw.len() {
            Err(ArgsProblem::MissingValue(flag))
        } else {
            let v = raw[i + 1];
            if flag == "--parent-pid"@ {
                match parse_unsigned_spec(v, u32::MAX as int) {
                    None => Err(ArgsProblem::InvalidParentPid),
                    Some(pid) => read_args(raw, i + 2, ArgsSoFar { parent_pid: Some(pid), ..acc }),
                }
            } else if flag == "--install-root"@ {
                read_args(raw, i + 2, ArgsSoFar { install_root: Some(v), ..acc })
            } else if flag == "--target-version"@ {
                read_args(raw, i + 2, ArgsSoFar { target_version: Some(v), ..acc })
            } else if flag == "--asset-url"@ {
                read_args(raw, i + 2, ArgsSoFar { asset_url: Some(v), ..acc })
            } else if flag == "--asset-name"@ {
                read_args(raw, i + 2, ArgsSoFar { asset_name: Some(v), ..acc })
            } else if flag == "--listen-addr"@ {
                read_args(raw, i + 2, ArgsSoFar { listen_addr: Some(v), ..acc })
            } else {
                read_args(raw, i + 2, ArgsSoFar { restart_args: acc.restart_args.push(v), ..acc })
            }
        }
    }
}

pub open spec fn no_args() -> ArgsSoFar {
    ArgsSoFar {
        install_root: None,
        target_version: None,
        asset_url: None,
        asset_name: None,
        parent_pid: None,
        listen_addr: None,
        restart_args: Seq::empty(),
    }
}

pub open spec fn raw_view(raw: Seq<String>) -> Seq<Seq<char>> {
    raw.map_values(|s: String| s@)
}

/// The parsed arguments agree with what was read.
pub open spec fn args_match(a: ApplyUpdateArgs, got: ArgsSoFar) -> bool {
    &&& got.install_root == Some(a.install_root@)
    &&& got.target_version == Some(a.target_version@)
    &&& got.asset_url == Some(a.asset_url@)
    &&& got.asset_name == Some(a.asset_name@)
    &&& got.parent_pid == Some(a.parent_pid as int)
    &&& a.listen_addr@ == match got.listen_addr {
        Some(l) => l,
        None => "127.0.0.1:46215"@,
    }
    &&& raw_view(a.restart_args@) == got.restart_args
}

/// The outcome of parsing, described: `Ok` when every argument was read and the
/// required flags are all present.
pub open spec fn parse_args_spec(raw: Seq<String>, r: Result<ApplyUpdateArgs, ApplyArgsError>) -> bool {
    match read_args(raw_view(raw), 0, no_args()) {
        Err(ArgsProblem::Unknown(a)) => r matches Err(ApplyArgsError::UnknownArgument(x)) && x@ == a,
        Err(ArgsProblem::MissingValue(f)) => r matches Err(ApplyArgsError::MissingValue(x)) && x@ == f,
        Err(ArgsProblem::InvalidParentPid) => r matches Err(ApplyArgsError::InvalidParentPid),
        Ok(got) => if got.install_root is None {
            r matches Err(ApplyArgsError::Missing(x)) && x@ == "install-root"@
        } else if got.target_version is None {
            r matches Err(ApplyArgsError::Missing(x)) && x@ == "target-version"@
        } else if got.asset_url is None {
            r matches Err(ApplyArgsError::Missing(x)) && x@ == "asset-url"@
        } else if got.asset_name is None {
            r matches Err(ApplyArgsError::Missing(x)) && x@ == "asset-name"@
        } else if got.parent_pid is None {
            r matches Err(ApplyArgsError::Missing(x)) && x@ == "parent-pid"@
        } else {
            r matches Ok(a) && args_match(a, got)
        },
    }
}

/// The value after the flag at `index - 1`.
pub fn required_arg(args: &Vec<String>, index: usize) -> (r: Result<String, ApplyArgsError>)
    requires
        1 <= index <= args@.len(),
    ensures
        index < args@.len() ==> (r matches Ok(v) && v@ == args@[index as int]@),
        index == args@.len() ==> (r matches Err(ApplyArgsError::MissingValue(f)) && f@ == args@[index - 1]@),
{
    if index < args.len() {
        Ok(args[index].clone())
    } else {
        Err(ApplyArgsError::MissingValue(args[index - 1].clone()))
    }
}

pub open spec fn opt_seq(v: Option<String>) -> Option<Seq<char>> {
    match v {
        Some(s) => Some(s@),
        None => None,
    }
}

/// Parses the updater's own arguments (those after the mode flag).
pub fn parse_apply_update_args(raw_args: &Vec<String>) -> (r: Result<ApplyUpdateArgs, ApplyArgsError>)
    ensures
        parse_args_spec(raw_args@, r),
{
    let ghost raw = raw_view(raw_args@);
    let mut install_root: Option<String> = None;
    let mut target_version: Option<String> = None;
    let mut asset_url: Option<String> = None;
    let mut asset_name: Option<String> = None;
    let mut parent_pid: Option<u32> = None;
    let mut listen_addr: Option<String> = None;
    let mut restart_args: Vec<String> = Vec::new();
    let mut index: usize = 0;
    proof {
        assert(raw_view(restart_args@) =~= Seq::<Seq<char>>::empty());
    }
    while index < raw_args.len()
        invariant
            index <= raw_args@.len(),
            raw == raw_view(raw_args@),
            read_args(raw, 0, no_args()) == read_args(raw, index as int, ArgsSoFar {
                install_root: opt_seq(install_root),
                target_version: opt_seq(target_version),
                asset_url: opt_seq(asset_url),
                asset_name: opt_seq(asset_name),
                parent_pid: match parent_pid {
                    Some(p) => Some(p as int),
                    None => None,
                },
                listen_addr: opt_seq(listen_addr),
                restart_args: raw_view(restart_args@),
            }),
        decreases raw_args@.len() - index,
    {
        let flag = chars_of(raw_args[index].as_str());
        proof {
            assert(raw[index as int] == raw_args@[index as int]@);
            if index + 1 < raw_args@.len() {
                assert(raw[index + 1] == raw_args@[index + 1]@);
            }
        }
        let known = seq_equal(&flag, &chars_of("--install-root")) || seq_equal(&flag, &chars_of("--target-version"))
            || seq_equal(&flag, &chars_of("--asset-url")) || seq_equal(&flag, &chars_of("--asset-name"))
            || seq_equal(&flag, &chars_of("--parent-pid")) || seq_equal(&flag, &chars_of("--listen-addr"))
            || seq_equal(&flag, &chars_of("--restart-arg"));
        if !known {
            return Err(ApplyArgsError::UnknownArgument(raw_args[index].clone()));
        }
        let value = required_arg(raw_args, index + 1)?;
        if seq_equal(&flag, &chars_of("--parent-pid")) {
            match parse_u32(&chars_of(value.as_str())) {
                Some(p) => {
                    parent_pid = Some(p);
                },
                None => {
                    return Err(ApplyArgsError::InvalidParentPid);
                },
            }
        } else if seq_equal(&flag, &chars_of("--install-root")) {
            install_root = Some(value);
        } else if seq_equal(&flag, &chars_of("--target-version")) {
            target_version = Some(value);
        } else if seq_equal(&flag, &chars_of("--asset-url")) {
            asset_url = Some(value);
        } else if seq_equal(&flag, &chars_of("--asset-name")) {
            asset_name = Some(value);
        } else if seq_equal(&flag, &chars_of("--listen-addr")) {
            listen_addr = Some(value);
        } else {
            let ghost before = restart_args@;
            restart_args.push(value);
            proof {
                assert(raw_view(restart_args@) =~= raw_view(before).push(raw[index + 1]));
            }
        }
        index += 2;
    }
    let install_root = match install_root {
        Some(v) => v,
        None => return Err(ApplyArgsError::Missing("install-root")),
    };
    let target_version = match target_version {
        Some(v) => v,
        None => return Err(ApplyArgsError::Missing("target-version")),
    };
    let asset_url = match asset_url {
        Some(v) => v,
        None => return Err(ApplyArgsError::Missing("asset-url")),
    };
    let asset_name = match asset_name {
        Some(v) => v,
        None => return Err(ApplyArgsError::Missing("asset-name")),
    };
    let parent_pid = match parent_pid {
        Some(v) => v,
        None => return Err(ApplyArgsError::Missing("parent-pid")),
    };
    let listen_addr = match listen_addr {
        Some(v) => v,
        None => String::from_str("127.0.0.1:46215"),
    };
    Ok(ApplyUpdateArgs { install_root, target_version, asset_url, asset_name, parent_pid, listen_addr, restart_args })
}

/// The arguments the detached updater is started with: the mode flag, every
/// field as a flag and its value, and each restart argument after
/// `--restart-arg`.
pub open spec fn command_args_spec(a: ApplyUpdateArgs) -> Seq<Seq<char>> {
    seq![
        APPLY_UPDATE_MODE_FLAG@,
        "--install-root"@,
        a.install_root@,
        "--target-version"@,
        a.target_version@,
        "--asset-url"@,
        a.asset_url@,
        "--asset-name"@,
        a.asset_name@,
        "--parent-pid"@,
        decimal_text(a.parent_pid as nat),
        "--listen-addr"@,
        a.listen_addr@,
    ] + restart_pairs(raw_view(a.restart_args@))
}

/// `--restart-arg` before each restart argument.
pub open spec fn restart_pairs(args: Seq<Seq<char>>) -> Seq<Seq<char>>
    decreases args.len(),
{
    if args.len() == 0 {
        Seq::empty()
    } else {
        restart_pairs(args.drop_last()) + seq!["--restart-arg"@, args.last()]
    }
}

fn push_str(out: &mut Vec<String>, s: &str)
    ensures
        raw_view(final(out)@) == raw_view(old(out)@).push(s@),
{
    let ghost before = out@;
    out.push(String::from_str(s));
    proof {
        assert(raw_view(out@) =~= raw_view(before).push(s@));
    }
}

/// The command line of the detached updater process.
pub fn updater_command_args(args: &ApplyUpdateArgs) -> (r: Vec<String>)
    ensures
        raw_view(r@) == command_args_spec(*args),
{
    let mut out: Vec<String> = Vec::new();
    push_str(&mut out, APPLY_UPDATE_MODE_FLAG);
    push_str(&mut out, "--install-root");
    push_str(&mut out, args.install_root.as_str());
    push_str(&mut out, "--target-version");
    push_str(&mut out, args.target_version.as_str());
    push_str(&mut out, "--asset-url");
    push_str(&mut out, args.asset_url.as_str());
    push_str(&mut out, "--asset-name");
    push_str(&mut out, args.asset_name.as_str());
    push_str(&mut out, "--parent-pid");
    let pid = string_from(&u64_text(args.parent_pid as u64));
    push_str(&mut out, pid.as_str());
    push_str(&mut out, "--listen-addr");
    push_str(&mut out, args.listen_addr.as_str());
    let ghost head = raw_view(out@);
    proof {
        assert(head =~= seq![
            APPLY_UPDATE_MODE_FLAG@,
            "--install-root"@,
            args.install_root@,
            "--target-version"@,
            args.target_version@,
            "--asset-url"@,
            args.asset_url@,
            "--asset-name"@,
            args.asset_name@,
            "--parent-pid"@,
            decimal_text(args.parent_pid as nat),
            "--listen-addr"@,
            args.listen_addr@,
        ]);
        assert(raw_view(args.restart_args@).subrange(0, 0) =~= Seq::<Seq<char>>::empty());
        assert(head + restart_pairs(Seq::empty()) =~= head);
    }
    let mut i: usize = 0;
    while i < args.restart_args.len()
        invariant
            i <= args.restart_args@.len(),
            raw_view(out@) == head + restart_pairs(raw_view(args.restart_args@).subrange(0, i as int)),
        decreases args.restart_args@.len() - i,
    {
        push_str(&mut out, "--restart-arg");
        push_str(&mut out, args.restart_args[i].as_str());
        proof {
            let rv = raw_view(args.restart_args@);
            let p = rv.subrange(0, i + 1);
            assert(p.drop_last() =~= rv.subrange(0, i as int));
            assert(p.last() == args.restart_args@[i as int]@);
            assert(raw_view(out@) =~= head + restart_pairs(p));
        }
        i += 1;
    }
    proof {
        assert(raw_view(args.restart_args@).subrange(0, args.restart_args@.len() as int) =~= raw_view(args.restart_args@));
    }
    out
}

proof fn lemma_pid_round_trip(pid: u32)
    ensures
        parse_unsigned_spec(decimal_text(pid as nat), u32::MAX as int) == Some(pid as int),
{
    crate::text::lemma_decimal_text_parses(pid as nat);
    let t = decimal_text(pid as nat);
    assert(crate::text::is_digit(t[0]));
}

proof fn lemma_flags_distinct()
    ensures
        is_value_flag("--install-root"@),
        is_value_flag("--target-version"@),
        is_value_flag("--asset-url"@),
        is_value_flag("--asset-name"@),
        is_value_flag("--parent-pid"@),
        is_value_flag("--listen-addr"@),
        is_value_flag("--restart-arg"@),
        "--install-root"@ != "--parent-pid"@,
        "--target-version"@ != "--parent-pid"@,
        "--target-version"@ != "--install-root"@,
        "--asset-url"@ != "--parent-pid"@,
        "--asset-url"@ != "--install-root"@,
        "--asset-url"@ != "--target-version"@,
        "--asset-name"@ != "--parent-pid"@,
        "--asset-name"@ != "--install-root"@,
        "--asset-name"@ != "--target-version"@,
        "--asset-name"@ != "--asset-url"@,
        "--listen-addr"@ != "--parent-pid"@,
        "--listen-addr"@ != "--install-root"@,
        "--listen-addr"@ != "--target-version"@,
        "--listen-addr"@ != "--asset-url"@,
        "--listen-addr"@ != "--asset-name"@,
        "--restart-arg"@ != "--parent-pid"@,
        "--restart-arg"@ != "--install-root"@,
        "--restart-arg"@ != "--target-version"@,
        "--restart-arg"@ != "--asset-url"@,
        "--restart-arg"@ != "--asset-name"@,
        "--restart-arg"@ != "--listen-addr"@,
{
    reveal_strlit("--restart-arg");
    reveal_strlit("--parent-pid");
    reveal_strlit("--install-root");
    reveal_strlit("--target-version");
    reveal_strlit("--asset-url");
    reveal_strlit("--asset-name");
    reveal_strlit("--listen-addr");
    assert("--install-root"@.len() == 14);
    assert("--parent-pid"@.len() == 12);
    assert("--target-version"@.len() == 16);
    assert("--asset-url"@.len() == 11);
    assert("--asset-name"@.len() == 12);
    assert("--listen-addr"@.len() == 13);
    assert("--restart-arg"@.len() == 13);
    assert("--asset-name"@[2] != "--parent-pid"@[2]);
    assert("--listen-addr"@[2] != "--restart-arg"@[2]);
}

proof fn lemma_restart_pairs_front(rs: Seq<Seq<char>>)
    requires
        rs.len() > 0,
    ensures
        restart_pairs(rs) == seq!["--restart-arg"@, rs[0]] + restart_pairs(rs.drop_first()),
    decreases rs.len(),
{
    if rs.len() == 1 {
        assert(rs.drop_last() =~= Seq::<Seq<char>>::empty());
        assert(rs.drop_first() =~= Seq::<Seq<char>>::empty());
        assert(restart_pairs(rs) =~= seq!["--restart-arg"@, rs[0]] + restart_pairs(rs.drop_first()));
    } else {
        lemma_restart_pairs_front(rs.drop_last());
        assert(rs.drop_last().drop_first() =~= rs.drop_first().drop_last());
        assert(rs.drop_first().last() == rs.last());
        assert(restart_pairs(rs) =~= seq!["--restart-arg"@, rs[0]] + restart_pairs(rs.drop_first()));
    }
}

proof fn lemma_read_restart_pairs(raw: Seq<Seq<char>>, i: int, acc: ArgsSoFar, rs: Seq<Seq<char>>)
    requires
        0 <= i <= raw.len(),
        raw.subrange(i, raw.len() as int) == restart_pairs(rs),
    ensures
        read_args(raw, i, acc) == Ok::<ArgsSoFar, ArgsProblem>(ArgsSoFar { restart_args: acc.restart_args + rs, ..acc }),
    decreases rs.len(),
{
    lemma_flags_distinct();
    if rs.len() == 0 {
        assert(raw.subrange(i, raw.len() as int).len() == 0);
        assert(acc.restart_args + rs =~= acc.restart_args);
    } else {
        lemma_restart_pairs_front(rs);
        let tail = raw.subrange(i, raw.len() as int);
        assert(tail.len() >= 2);
        assert(tail[0] == raw[i]);
        assert(tail[1] == raw[i + 1]);
        assert(raw[i] == "--restart-arg"@);
        assert(raw[i + 1] == rs[0]);
        assert(raw.subrange(i + 2, raw.len() as int) =~= tail.subrange(2, tail.len() as int));
        assert(tail.subrange(2, tail.len() as int) =~= restart_pairs(rs.drop_first()));
        let next = ArgsSoFar { restart_args: acc.restart_args.push(rs[0]), ..acc };
        lemma_read_restart_pairs(raw, i + 2, next, rs.drop_first());
        assert(acc.restart_args.push(rs[0]) + rs.drop_first() =~= acc.restart_args + rs);
    }
}

/// Reading back the updater's command line (after the mode flag) gives the arguments
/// it was built from.
pub proof fn law_update_args_round_trip(a: ApplyUpdateArgs)
    ensures
        read_args(command_args_spec(a).drop_first(), 0, no_args()) == Ok::<ArgsSoFar, ArgsProblem>(ArgsSoFar {
            install_root: Some(a.install_root@),
            target_version: Some(a.target_version@),
            asset_url: Some(a.asset_url@),
            asset_name: Some(a.asset_name@),
            parent_pid: Some(a.parent_pid as int),
            listen_addr: Some(a.listen_addr@),
            restart_args: raw_view(a.restart_args@),
        }),
{
    lemma_flags_distinct();
    let raw = command_args_spec(a).drop_first();
    let rs = raw_view(a.restart_args@);
    lemma_pid_round_trip(a.parent_pid);
    assert(raw.subrange(12, raw.len() as int) =~= restart_pairs(rs));
    let acc6 = ArgsSoFar {
        install_root: Some(a.install_root@),
        target_version: Some(a.target_version@),
        asset_url: Some(a.asset_url@),
        asset_name: Some(a.asset_name@),
        parent_pid: Some(a.parent_pid as int),
        listen_addr: Some(a.listen_addr@),
        restart_args: Seq::empty(),
    };
    lemma_read_restart_pairs(raw, 12, acc6, rs);
    assert(Seq::<Seq<char>>::empty() + rs =~= rs);
    let acc0 = no_args();
    let acc1 = ArgsSoFar { install_root: Some(a.install_root@), ..acc0 };
    let acc2 = ArgsSoFar { target_version: Some(a.target_version@), ..acc1 };
    let acc3 = ArgsSoFar { asset_url: Some(a.asset_url@), ..acc2 };
    let acc4 = ArgsSoFar { asset_name: Some(a.asset_name@), ..acc3 };
    let acc5 = ArgsSoFar { parent_pid: Some(a.parent_pid as int), ..acc4 };
    assert(raw[0] == "--install-root"@ && raw[1] == a.install_root@);
    assert(read_args(raw, 0, acc0) == read_args(raw, 2, acc1));
    assert(raw[2] == "--target-version"@ && raw[3] == a.target_version@);
    assert(read_args(raw, 2, acc1) == read_args(raw, 4, acc2));
    assert(raw[4] == "--asset-url"@ && raw[5] == a.asset_url@);
    assert(read_args(raw, 4, acc2) == read_args(raw, 6, acc3));
    assert(raw[6] == "--asset-name"@ && raw[7] == a.asset_name@);
    assert(read_args(raw, 6, acc3) == read_args(raw, 8, acc4));
    assert(raw[8] == "--parent-pid"@ && raw[9] == decimal_text(a.parent_pid as nat));
    assert(read_args(raw, 8, acc4) == read_args(raw, 10, acc5));
    assert(raw[10] == "--listen-addr"@ && raw[11] == a.listen_addr@);
    assert(read_args(raw, 10, acc5) == read_args(raw, 12, acc6));
}

// ---------------------------------------------------------------------------
// Health check address
// ---------------------------------------------------------------------------
/// The flag of argument pair `k` (the arguments at `2k` and `2k + 1`).
pub open spec fn flag_at(raw: Seq<Seq<char>>, k: int) -> Seq<char> {
    raw[2 * k]
}

/// The value of argument pair `k`.
pub open spec fn value_at(raw: Seq<Seq<char>>, k: int) -> Seq<char> {
    raw[2 * k + 1]
}

/// Pair `k` names a known flag, and a `--parent-pid` value parses as a `u32`.
pub open spec fn pair_ok(raw: Seq<Seq<char>>, k: int) -> bool {
    &&& is_value_flag(flag_at(raw, k))
    &&& flag_at(raw, k) == "--parent-pid"@ ==> parse_unsigned_spec(value_at(raw, k), u32::MAX as int) is Some
}

/// The arguments come in pairs, and every pair from pair `m` on is well formed.
pub open spec fn pairs_ok_from(raw: Seq<Seq<char>>, m: int) -> bool {
    &&& raw.len() % 2 == 0
    &&& forall|k: int| m <= k < raw.len() / 2 ==> #[trigger] pair_ok(raw, k)
}

/// Pair `k` is the last pair from pair `m` on that names flag `f`.
pub open spec fn is_last_pair(raw: Seq<Seq<char>>, f: Seq<char>, m: int, k: int) -> bool {
    &&& m <= k < raw.len() / 2
    &&& flag_at(raw, k) == f
    &&& forall|j: int| k < j < raw.len() / 2 ==> #[trigger] flag_at(raw, j) != f
}

/// The value given last to flag `f` from pair `m` on.
pub open spec fn last_value(raw: Seq<Seq<char>>, f: Seq<char>, m: int) -> Option<Seq<char>> {
    if exists|k: int| is_last_pair(raw, f, m, k) {
        Some(value_at(raw, choose|k: int| is_last_pair(raw, f, m, k)))
    } else {
        None
    }
}

/// The `--restart-arg` values from pair `m` on, in order.
pub open spec fn restart_values(raw: Seq<Seq<char>>, m: int) -> Seq<Seq<char>>
    decreases raw.len() / 2 - m,
{
    if m < 0 || m >= raw.len() / 2 {
        Seq::empty()
    } else if flag_at(raw, m) == "--restart-arg"@ {
        seq![value_at(raw, m)] + restart_values(raw, m + 1)
    } else {
        restart_values(raw, m + 1)
    }
}

/// A field after reading: the last value given from pair `m` on, else what it was.
pub open spec fn updated(acc: Option<Seq<char>>, raw: Seq<Seq<char>>, f: Seq<char>, m: int) -> Option<Seq<char>> {
    match last_value(raw, f, m) {
        Some(v) => Some(v),
        None => acc,
    }
}

proof fn lemma_last_value_step(raw: Seq<Seq<char>>, f: Seq<char>, m: int)
    requires
        0 <= m < raw.len() / 2,
    ensures
        flag_at(raw, m) != f ==> last_value(raw, f, m) == last_value(raw, f, m + 1),
        flag_at(raw, m) == f ==> last_value(raw, f, m) == match last_value(raw, f, m + 1) {
            Some(v) => Some(v),
            None => Some(value_at(raw, m)),
        },
{
    let m1 = m + 1;
    if exists|k: int| is_last_pair(raw, f, m1, k) {
        let k = choose|k: int| is_last_pair(raw, f, m1, k);
        assert(is_last_pair(raw, f, m, k));
        assert forall|k2: int| is_last_pair(raw, f, m, k2) implies k2 == k by {
            if k2 < k {
                assert(flag_at(raw, k) != f);
            } else if k2 > k {
                assert(flag_at(raw, k2) != f);
            }
        }
        let k0 = choose|k: int| is_last_pair(raw, f, m, k);
        assert(k0 == k);
    } else {
        if flag_at(raw, m) == f {
            assert forall|j: int| m < j < raw.len() / 2 implies #[trigger] flag_at(raw, j) != f by {
                if flag_at(raw, j) == f {
                    let last = lemma_some_last(raw, f, m + 1, j);
                    assert(is_last_pair(raw, f, m + 1, last));
                }
            }
            assert(is_last_pair(raw, f, m, m));
            assert forall|k2: int| is_last_pair(raw, f, m, k2) implies k2 == m by {
                if k2 > m {
                    assert(is_last_pair(raw, f, m + 1, k2));
                }
            }
        } else {
            assert forall|k2: int| !is_last_pair(raw, f, m, k2) by {
                if is_last_pair(raw, f, m, k2) {
                    if k2 == m {
                    } else {
                        assert(is_last_pair(raw, f, m + 1, k2));
                    }
                }
            }
        }
    }
}

/// A flag given at pair `j` has a last occurrence from `m` on.
proof fn lemma_some_last(raw: Seq<Seq<char>>, f: Seq<char>, m: int, j: int) -> (k: int)
    requires
        m <= j < raw.len() / 2,
        flag_at(raw, j) == f,
    ensures
        is_last_pair(raw, f, m, k),
    decreases raw.len() / 2 - j,
{
    if exists|j2: int| j < j2 < raw.len() / 2 && #[trigger] flag_at(raw, j2) == f {
        let j2 = choose|j2: int| j < j2 < raw.len() / 2 && #[trigger] flag_at(raw, j2) == f;
        lemma_some_last(raw, f, m, j2)
    } else {
        j
    }
}

proof fn lemma_read_args_pairs(raw: Seq<Seq<char>>, m: int, acc: ArgsSoFar)
    requires
        0 <= m,
        2 * m <= raw.len(),
    ensures
        read_args(raw, 2 * m, acc) is Ok <==> pairs_ok_from(raw, m),
        read_args(raw, 2 * m, acc) matches Ok(got) ==> {
            &&& got.install_root == updated(acc.install_root, raw, "--install-root"@, m)
            &&& got.target_version == updated(acc.target_version, raw, "--target-version"@, m)
            &&& got.asset_url == updated(acc.asset_url, raw, "--asset-url"@, m)
            &&& got.asset_name == updated(acc.asset_name, raw, "--asset-name"@, m)
            &&& got.listen_addr == updated(acc.listen_addr, raw, "--listen-addr"@, m)
            &&& got.parent_pid == match last_value(raw, "--parent-pid"@, m) {
                Some(v) => parse_unsigned_spec(v, u32::MAX as int),
                None => acc.parent_pid,
            }
            &&& got.restart_args == acc.restart_args + restart_values(raw, m)
        },
    decreases raw.len() - 2 * m,
{
    let i = 2 * m;
    if i >= raw.len() {
        assert(raw.len() == 2 * m);
        assert(!exists|k: int| is_last_pair(raw, "--install-root"@, m, k));
        assert(!exists|k: int| is_last_pair(raw, "--target-version"@, m, k));
        assert(!exists|k: int| is_last_pair(raw, "--asset-url"@, m, k));
        assert(!exists|k: int| is_last_pair(raw, "--asset-name"@, m, k));
        assert(!exists|k: int| is_last_pair(raw, "--listen-addr"@, m, k));
        assert(!exists|k: int| is_last_pair(raw, "--parent-pid"@, m, k));
        assert(acc.restart_args + Seq::<Seq<char>>::empty() =~= acc.restart_args);
    } else if i + 1 >= raw.len() {
        assert(raw.len() % 2 == 1);
    } else {
        assert(m < raw.len() / 2);
        assert(flag_at(raw, m) == raw[i] && value_at(raw, m) == raw[i + 1]);
        let flag = raw[i];
        let v = raw[i + 1];
        if !pair_ok(raw, m) {
            assert(!pairs_ok_from(raw, m));
        } else {
            let acc2 = if flag == "--parent-pid"@ {
                ArgsSoFar { parent_pid: parse_unsigned_spec(v, u32::MAX as int), ..acc }
            } else if flag == "--install-root"@ {
                ArgsSoFar { install_root: Some(v), ..acc }
            } else if flag == "--target-version"@ {
                ArgsSoFar { target_version: Some(v), ..acc }
            } else if flag == "--asset-url"@ {
                ArgsSoFar { asset_url: Some(v), ..acc }
            } else if flag == "--asset-name"@ {
                ArgsSoFar { asset_name: Some(v), ..acc }
            } else if flag == "--listen-addr"@ {
                ArgsSoFar { listen_addr: Some(v), ..acc }
            } else {
                ArgsSoFar { restart_args: acc.restart_args.push(v), ..acc }
            };
            assert(read_args(raw, i, acc) == read_args(raw, 2 * (m + 1), acc2));
            lemma_read_args_pairs(raw, m + 1, acc2);
            assert(pairs_ok_from(raw, m) <==> pairs_ok_from(raw, m + 1)) by {
                if pairs_ok_from(raw, m + 1) {
                    assert forall|k: int| m <= k < raw.len() / 2 implies #[trigger] pair_ok(raw, k) by {
                        if k > m {
                            assert(pair_ok(raw, k));
                        }
                    }
                }
            }
            lemma_last_value_step(raw, "--install-root"@, m);
            lemma_last_value_step(raw, "--target-version"@, m);
            lemma_last_value_step(raw, "--asset-url"@, m);
            lemma_last_value_step(raw, "--asset-name"@, m);
            lemma_last_value_step(raw, "--listen-addr"@, m);
            lemma_last_value_step(raw, "--parent-pid"@, m);
            lemma_flags_distinct();
            if flag == "--restart-arg"@ {
                assert(restart_values(raw, m) == seq![v] + restart_values(raw, m + 1));
                assert(acc.restart_args.push(v) + restart_values(raw, m + 1) =~= acc.restart_args + (seq![v]
                    + restart_values(raw, m + 1)));
            } else {
                assert(restart_values(raw, m) == restart_values(raw, m + 1));
            }
        }
    }
}

/// Law: the updater's arguments are accepted exactly when they come in pairs of a
/// known flag and its value, every `--parent-pid` value is a `u32`, and the five
/// required flags all occur. Then each field holds the value its flag was given
/// last, the listen address defaults to `127.0.0.1:46215`, and the restart
/// arguments are the `--restart-arg` values in order.
pub proof fn law_update_args_accepted(raw_args: Seq<String>, r: Result<ApplyUpdateArgs, ApplyArgsError>)
    requires
        parse_args_spec(raw_args, r),
    ensures
        ({
            let raw = raw_view(raw_args);
            &&& r is Ok <==> (pairs_ok_from(raw, 0) && last_value(raw, "--install-root"@, 0) is Some && last_value(
                raw,
                "--target-version"@,
                0,
            ) is Some && last_value(raw, "--asset-url"@, 0) is Some && last_value(raw, "--asset-name"@, 0) is Some
                && last_value(raw, "--parent-pid"@, 0) is Some)
            &&& r matches Ok(a) ==> {
                &&& last_value(raw, "--install-root"@, 0) == Some(a.install_root@)
                &&& last_value(raw, "--target-version"@, 0) == Some(a.target_version@)
                &&& last_value(raw, "--asset-url"@, 0) == Some(a.asset_url@)
                &&& last_value(raw, "--asset-name"@, 0) == Some(a.asset_name@)
                &&& parse_unsigned_spec(last_value(raw, "--parent-pid"@, 0)->Some_0, u32::MAX as int) == Some(
                    a.parent_pid as int,
                )
                &&& a.listen_addr@ == match last_value(raw, "--listen-addr"@, 0) {
                    Some(l) => l,
                    None => "127.0.0.1:46215"@,
                }
                &&& raw_view(a.restart_args@) == restart_values(raw, 0)
            }
        }),
{
    let raw = raw_view(raw_args);
    lemma_read_args_pairs(raw, 0, no_args());
    assert(Seq::<Seq<char>>::empty() + restart_values(raw, 0) =~= restart_values(raw, 0));
    if pairs_ok_from(raw, 0) && last_value(raw, "--parent-pid"@, 0) is Some {
        let k = choose|k: int| is_last_pair(raw, "--parent-pid"@, 0, k);
        assert(pair_ok(raw, k));
    }
}


/// The address the health check after an upgrade connects to: the listen address
/// trimmed, split at its last colon; the host trimmed and unbracketed, a wildcard or
/// empty host replaced by `127.0.0.1`, an IPv6 host bracketed again; without a colon,
/// the default address.
pub open spec fn health_addr_spec(listen_addr: Seq<char>) -> Seq<char> {
    let t = trim_spec(listen_addr);
    if t.contains(':') {
        let i = choose|i: int| is_last_index_of(t, ':', i);
        let raw_host = t.subrange(0, i);
        let port = t.subrange(i + 1, t.len() as int);
        let h = trim_end_by(trim_start_by(trim_spec(raw_host), char_pred('[')), char_pred(']'));
        let host = if h.len() == 0 || h == "0.0.0.0"@ || h == "::"@ {
            "127.0.0.1"@
        } else {
            h
        };
        if host.contains(':') {
            seq!['['] + host + seq![']', ':'] + port
        } else {
            host + seq![':'] + port
        }
    } else {
        "127.0.0.1:46215"@
    }
}

proof fn lemma_last_colon_unique(s: Seq<char>, i: int, j: int)
    requires
        is_last_index_of(s, ':', i),
        is_last_index_of(s, ':', j),
    ensures
        i == j,
{
    if i < j {
        assert(s[j] != ':');
    } else if j < i {
        assert(s[i] != ':');
    }
}

pub fn normalize_health_addr(listen_addr: &str) -> (r: String)
    ensures
        r@ == health_addr_spec(listen_addr@),
{
    let t = trim(&chars_of(listen_addr));
    match rfind_char(&t, ':') {
        Some(i) => {
            proof {
                assert(t@.contains(':')) by {
                    assert(t@[i as int] == ':');
                }
                let j = choose|j: int| is_last_index_of(t@, ':', j);
                lemma_last_colon_unique(t@, i as int, j);
            }
            let n: usize = t.len();
            let raw_host = slice_copy(&t, 0, i);
            let port = slice_copy(&t, i + 1, n);
            let h = trim_end_char(&trim_start_char(&trim(&raw_host), '['), ']');
            let host = if h.len() == 0 || seq_equal(&h, &chars_of("0.0.0.0")) || seq_equal(&h, &chars_of("::")) {
                chars_of("127.0.0.1")
            } else {
                h
            };
            let mut colon: Vec<char> = Vec::new();
            colon.push(':');
            proof {
                assert(colon@ =~= seq![':']);
            }
            if contains_char(&host, ':') {
                let mut open: Vec<char> = Vec::new();
                open.push('[');
                let mut close: Vec<char> = Vec::new();
                close.push(']');
                close.push(':');
                proof {
                    assert(open@ =~= seq!['[']);
                    assert(close@ =~= seq![']', ':']);
                }
                string_from(&concat(&concat(&concat(&open, &host), &close), &port))
            } else {
                string_from(&concat(&concat(&host, &colon), &port))
            }
        },
        None => String::from_str("127.0.0.1:46215"),
    }
}

// ---------------------------------------------------------------------------
// Versions
// ---------------------------------------------------------------------------

/// What `semver::Version::parse` followed by `to_string` gives for a text: the
/// canonical version text, or `None` when the text is not a version.
pub uninterp spec fn semver_canonical(text: Seq<char>) -> Option<Seq<char>>;

/// Parses a version with `semver::Version::parse` and writes it back with its
/// `Display`; the result is named by `semver_canonical`.
#[verifier::external_body]
fn canonical_version(text: &str) -> (r: Option<String>)
    ensures
        match r {
            Some(v) => semver_canonical(text@) == Some(v@),
            None => semver_canonical(text@) is None,
        },
{
    match semver::Version::parse(text) {
        Ok(version) => Some(version.to_string()),
        Err(_) => None,
    }
}

/// Whether `semver::Version` orders the first version above the second (major,
/// minor, patch, pre-release, then build metadata).
pub uninterp spec fn semver_newer(latest: Seq<char>, current: Seq<char>) -> bool;

/// Parses both versions with `semver::Version::parse` and compares them with the
/// derived `>`; `None` when either is not a version. A version is never above
/// itself.
#[verifier::external_body]
fn version_is_newer(latest: &str, current: &str) -> (r: Option<bool>)
    ensures
        r is None <==> (semver_canonical(latest@) is None || semver_canonical(current@) is None),
        r matches Some(b) ==> b == semver_newer(latest@, current@),
        latest@ == current@ && r is Some ==> r == Some(false),
{
    match (semver::Version::parse(latest), semver::Version::parse(current)) {
        (Ok(a), Ok(b)) => Some(a > b),
        _ => None,
    }
}

/// The tag without surrounding spaces and without one leading `v` or `V`.
pub open spec fn tag_version_text(tag: Seq<char>) -> Seq<char> {
    let t = trim_spec(tag);
    if t.len() > 0 && (t[0] == 'v' || t[0] == 'V') {
        t.drop_first()
    } else {
        t
    }
}

fn strip_tag(tag: &str) -> (r: String)
    ensures
        r@ == tag_version_text(tag@),
{
    let t = trim(&chars_of(tag));
    if t.len() > 0 && (t[0] == 'v' || t[0] == 'V') {
        let n: usize = t.len();
        let rest = slice_copy(&t, 1, n);
        proof {
            assert(rest@ =~= t@.drop_first());
        }
        string_from(&rest)
    } else {
        string_from(&t)
    }
}

/// Why a release cannot be used.
#[derive(Clone, Copy, Debug, PartialEq, Eq, Structural)]
pub enum ReleaseError {
    /// A version text is not a semantic version.
    InvalidVersion,
    /// The release has no portable ZIP asset.
    NoPortableAsset,
}

/// The canonical version of a release tag (`v1.2.3` and `1.2.3` give `1.2.3`).
pub fn normalize_version(tag: &str) -> (r: Result<String, ReleaseError>)
    ensures
        match semver_canonical(tag_version_text(tag@)) {
            Some(v) => r matches Ok(s) && s@ == v,
            None => r == Err::<String, ReleaseError>(ReleaseError::InvalidVersion),
        },
{
    let text = strip_tag(tag);
    match canonical_version(text.as_str()) {
        Some(v) => Ok(v),
        None => Err(ReleaseError::InvalidVersion),
    }
}

// ---------------------------------------------------------------------------
// Release assets
// ---------------------------------------------------------------------------

/// A downloadable file of a release.
#[derive(Clone, Debug)]
pub struct GithubAsset {
    pub name: String,
    pub browser_download_url: String,
}

/// A release as the releases API describes it.
#[derive(Clone, Debug)]
pub struct GithubRelease {
    pub tag_name: String,
    pub name: Option<String>,
    pub html_url: String,
    pub published_at: Option<String>,
    pub assets: Vec<GithubAsset>,
}

/// The portable package: `timeline-portable-*.zip`.
pub open spec fn is_portable_zip(name: Seq<char>) -> bool {
    starts_with_spec(name, PORTABLE_ASSET_PREFIX@) && ends_with_spec(name, ".zip"@)
}

/// Any ZIP whose name mentions `portable`.
pub open spec fn is_fallback_zip(name: Seq<char>) -> bool {
    ends_with_spec(name, ".zip"@) && occurs_spec(name, "portable"@)
}

/// The first portable package, or else the first ZIP that mentions `portable`.
pub open spec fn portable_choice(assets: Seq<GithubAsset>) -> Option<int> {
    if exists|i: int| 0 <= i < assets.len() && is_portable_zip(#[trigger] assets[i].name@) {
        Some(choose|i: int| 0 <= i < assets.len() && is_portable_zip(#[trigger] assets[i].name@)
            && forall|k: int| 0 <= k < i ==> !is_portable_zip(#[trigger] assets[k].name@))
    } else if exists|i: int| 0 <= i < assets.len() && is_fallback_zip(#[trigger] assets[i].name@) {
        Some(choose|i: int| 0 <= i < assets.len() && is_fallback_zip(#[trigger] assets[i].name@)
            && forall|k: int| 0 <= k < i ==> !is_fallback_zip(#[trigger] assets[k].name@))
    } else {
        None
    }
}

fn first_asset_where(assets: &Vec<GithubAsset>, fallback: bool) -> (r: Option<usize>)
    ensures
        match r {
            Some(i) => i < assets@.len() && (if fallback {
                is_fallback_zip(assets@[i as int].name@)
            } else {
                is_portable_zip(assets@[i as int].name@)
            }) && forall|k: int| 0 <= k < i ==> !(if fallback {
                is_fallback_zip(#[trigger] assets@[k].name@)
            } else {
                is_portable_zip(assets@[k].name@)
            }),
            None => forall|k: int| 0 <= k < assets@.len() ==> !(if fallback {
                is_fallback_zip(#[trigger] assets@[k].name@)
            } else {
                is_portable_zip(assets@[k].name@)
            }),
        },
{
    let prefix = chars_of(PORTABLE_ASSET_PREFIX);
    let zip = chars_of(".zip");
    let portable = chars_of("portable");
    let mut i: usize = 0;
    while i < assets.len()
        invariant
            i <= assets@.len(),
            prefix@ == PORTABLE_ASSET_PREFIX@,
            zip@ == ".zip"@,
            portable@ == "portable"@,
            forall|k: int| 0 <= k < i ==> !(if fallback {
                is_fallback_zip(#[trigger] assets@[k].name@)
            } else {
                is_portable_zip(assets@[k].name@)
            }),
        decreases assets@.len() - i,
    {
        let name = chars_of(assets[i].name.as_str());
        let hit = if fallback {
            ends_with(&name, &zip) && contains(&name, &portable)
        } else {
            starts_with(&name, &prefix) && ends_with(&name, &zip)
        };
        if hit {
            return Some(i);
        }
        i += 1;
    }
    None
}

/// The release asset to install.
pub fn select_portable_asset(assets: &Vec<GithubAsset>) -> (r: Option<&GithubAsset>)
    ensures
        match portable_choice(assets@) {
            Some(i) => r matches Some(a) && *a == assets@[i],
            None => r is None,
        },
{
    let found = match first_asset_where(assets, false) {
        Some(i) => Some(i),
        None => first_asset_where(assets, true),
    };
    match found {
        Some(i) => {
            proof {
                if exists|j: int| 0 <= j < assets@.len() && is_portable_zip(#[trigger] assets@[j].name@) {
                    let c = choose|j: int| 0 <= j < assets@.len() && is_portable_zip(#[trigger] assets@[j].name@)
                        && forall|k: int| 0 <= k < j ==> !is_portable_zip(#[trigger] assets@[k].name@);
                    if c < i {
                    } else if i < c {
                        assert(is_portable_zip(assets@[i as int].name@));
                    }
                } else {
                    let c = choose|j: int| 0 <= j < assets@.len() && is_fallback_zip(#[trigger] assets@[j].name@)
                        && forall|k: int| 0 <= k < j ==> !is_fallback_zip(#[trigger] assets@[k].name@);
                    if i < c {
                        assert(is_fallback_zip(assets@[i as int].name@));
                    }
                }
            }
            Some(&assets[i])
        },
        None => None,
    }
}

/// What a release offers against the running version.
#[derive(Clone, Debug)]
pub struct ReleasePlan {
    pub asset: GithubAsset,
    pub current_version: String,
    pub latest_version: String,
    pub has_update: bool,
}

/// Compares a release with the running version `current_version` and picks its
/// portable asset.
pub fn plan_release(release: &GithubRelease, current_version: &str) -> (r: Result<ReleasePlan, ReleaseError>)
    ensures
        match r {
            Ok(p) => {
                &&& semver_canonical(tag_version_text(release.tag_name@)) == Some(p.latest_version@)
                &&& semver_canonical(current_version@) is Some
                &&& p.current_version@ == current_version@
                &&& p.has_update == semver_newer(p.latest_version@, current_version@)
                &&& portable_choice(release.assets@) matches Some(i) && p.asset == release.assets@[i]
            },
            Err(ReleaseError::InvalidVersion) => semver_canonical(tag_version_text(release.tag_name@)) is None
                || semver_canonical(current_version@) is None || (semver_canonical(tag_version_text(
                release.tag_name@,
            )) matches Some(v) && semver_canonical(v) is None),
            Err(ReleaseError::NoPortableAsset) => portable_choice(release.assets@) is None,
        },
{
    let latest = normalize_version(release.tag_name.as_str())?;
    let has_update = match version_is_newer(latest.as_str(), current_version) {
        Some(b) => b,
        None => return Err(ReleaseError::InvalidVersion),
    };
    let asset = match select_portable_asset(&release.assets) {
        Some(a) => GithubAsset { name: a.name.clone(), browser_download_url: a.browser_download_url.clone() },
        None => return Err(ReleaseError::NoPortableAsset),
    };
    Ok(ReleasePlan { asset, current_version: String::from_str(current_version), latest_version: latest, has_update })
}

// ---------------------------------------------------------------------------
// Installation steps
// ---------------------------------------------------------------------------

/// The arguments the restarted application gets: its configuration file, when it
/// was started with one.
pub fn build_restart_args(config_path: Option<&str>) -> (r: Vec<String>)
    ensures
        raw_view(r@) == match config_path {
            Some(p) => seq!["--config"@, p@],
            None => Seq::<Seq<char>>::empty(),
        },
{
    let mut out: Vec<String> = Vec::new();
    if let Some(p) = config_path {
        push_str(&mut out, "--config");
        push_str(&mut out, p);
        proof {
            assert(raw_view(out@) =~= seq!["--config"@, p@]);
        }
    } else {
        proof {
            assert(raw_view(out@) =~= Seq::<Seq<char>>::empty());
        }
    }
    out
}

/// Why an installation step is refused.
#[derive(Clone, Copy, Debug, PartialEq, Eq, Structural)]
pub enum InstallError {
    /// Online updates need the portable layout: a `config` directory and the launcher.
    NotPortable,
}

/// Online updates are offered only for the unpacked portable package.
pub fn ensure_portable_install_root(has_config_dir: bool, has_launcher: bool) -> (r: Result<(), InstallError>)
    ensures
        (has_config_dir && has_launcher) <==> r is Ok,
        r is Err ==> r == Err::<(), InstallError>(InstallError::NotPortable),
{
    if has_config_dir && has_launcher {
        Ok(())
    } else {
        Err(InstallError::NotPortable)
    }
}

/// The directory an extracted package is installed from: its only entry when that
/// is a directory, else the extraction directory itself. `entries` are the
/// extraction directory's entries with whether each is a directory.
pub fn resolve_stage_root(extract_dir: &str, entries: &Vec<(String, bool)>) -> (r: String)
    ensures
        (entries@.len() == 1 && entries@[0].1) ==> r == entries@[0].0,
        !(entries@.len() == 1 && entries@[0].1) ==> r@ == extract_dir@,
{
    if entries.len() == 1 && entries[0].1 {
        entries[0].0.clone()
    } else {
        String::from_str(extract_dir)
    }
}

/// The health answer of a restarted service: `ok`, the `timeline` service, and the
/// expected version when one is expected.
pub fn is_expected_health(ok: bool, service: Option<&str>, version: Option<&str>, expected_version: Option<&str>) -> (r: bool)
    ensures
        r == (ok && (service matches Some(s) && s@ == "timeline"@) && (version is Some && match expected_version {
            Some(e) => version->Some_0@ == e@,
            None => true,
        })),
{
    if !ok {
        return false;
    }
    let (s, v) = match (service, version) {
        (Some(s), Some(v)) => (s, v),
        _ => return false,
    };
    if !seq_equal(&chars_of(s), &chars_of("timeline")) {
        return false;
    }
    match expected_version {
        Some(e) => seq_equal(&chars_of(v), &chars_of(e)),
        None => true,
    }
}

/// The version to roll back to after a failed upgrade: the previous one, when its
/// executable is still installed.
pub fn rollback_target(previous_version: Option<String>, previous_executable_exists: bool) -> (r: Option<String>)
    ensures
        r == if previous_executable_exists {
            previous_version
        } else {
            None
        },
{
    if previous_executable_exists {
        previous_version
    } else {
        None
    }
}

} // verus!
