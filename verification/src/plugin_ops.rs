//! The checks and command lines of the managed `dsh plugin` operations, and how
//! their output and outcome are collected.
use crate::text::{contains_char, seq_trim, seq_trim_end, str_eq, to_string, trim, trim_end};
use vstd::prelude::*;

verus! {

pub const BUSY_MESSAGE: &'static str = "当前只有一个插件操作可运行";

pub const CANCELLED_MESSAGE: &'static str = "插件操作已取消";

/// Most characters of one argument.
pub const MAX_ARG_LENGTH: usize = 512;

/// The outcome of a managed `dsh plugin` operation.
#[derive(Debug, Clone, PartialEq, Eq)]
pub struct PluginOperationResult {
    pub ok: bool,
    pub exit_code: Option<i32>,
    pub output: Vec<String>,
}

/// The verdict on one argument: not blank, no NUL, at most `MAX_ARG_LENGTH`
/// characters.
pub open spec fn value_verdict(label: Seq<char>, value: Seq<char>) -> Result<(), Seq<char>> {
    if seq_trim(value).len() == 0 {
        Err(label + " 不能为空"@)
    } else if value.contains('\0') {
        Err(label + " 不能包含 NUL"@)
    } else if value.len() > MAX_ARG_LENGTH {
        Err(label + " 长度不能超过 512"@)
    } else {
        Ok(())
    }
}

/// A verdict as the `Result` of strings that reports it.
pub open spec fn reports(r: Result<(), String>, v: Result<(), Seq<char>>) -> bool {
    match v {
        Ok(()) => r is Ok,
        Err(m) => r matches Err(e) && e@ == m,
    }
}

fn labelled(label: &str, tail: &str) -> (r: String)
    ensures
        r@ == label@ + tail@,
{
    let mut s = String::from_str(label);
    s.append(tail);
    s
}

pub fn validate_value(label: &str, value: &str) -> (r: Result<(), String>)
    ensures
        reports(r, value_verdict(label@, value@)),
{
    if trim(value).unicode_len() == 0 {
        return Err(labelled(label, " 不能为空"));
    }
    if contains_char(value, '\0') {
        return Err(labelled(label, " 不能包含 NUL"));
    }
    if value.unicode_len() > MAX_ARG_LENGTH {
        return Err(labelled(label, " 长度不能超过 512"));
    }
    Ok(())
}

/// The verdict on a profile name: a valid argument that is not `.` or `..` and holds
/// no `/` or `\`.
pub open spec fn profile_verdict(profile: Seq<char>) -> Result<(), Seq<char>> {
    if value_verdict("profile"@, profile) is Err {
        value_verdict("profile"@, profile)
    } else if profile == "."@ || profile == ".."@ || profile.contains('/') || profile.contains('\\') {
        Err("profile 名称无效"@)
    } else {
        Ok(())
    }
}

pub fn validate_profile(profile: &str) -> (r: Result<(), String>)
    ensures
        reports(r, profile_verdict(profile@)),
{
    let v = validate_value("profile", profile);
    if v.is_err() {
        return v;
    }
    if str_eq(profile, ".") || str_eq(profile, "..") || contains_char(profile, '/') || contains_char(
        profile,
        '\\',
    ) {
        return Err(String::from_str("profile 名称无效"));
    }
    Ok(())
}

/// The arguments of `dsh plugin` for one profile: `plugin --profile <profile>`
/// followed by the operation's own.
pub open spec fn plugin_args(profile: Seq<char>, rest: Seq<Seq<char>>) -> Seq<Seq<char>> {
    seq!["plugin"@, "--profile"@, profile] + rest
}

pub open spec fn texts(v: Seq<String>) -> Seq<Seq<char>> {
    v.map_values(|s: String| s@)
}

fn args_for(profile: &str, rest: &[&str]) -> (r: Vec<String>)
    ensures
        texts(r@) == plugin_args(profile@, rest@.map_values(|s: &str| s@)),
{
    let mut out: Vec<String> = Vec::new();
    out.push(String::from_str("plugin"));
    out.push(String::from_str("--profile"));
    out.push(to_string(profile));
    let mut i: usize = 0;
    while i < rest.len()
        invariant
            i <= rest@.len(),
            texts(out@) == plugin_args(profile@, rest@.map_values(|s: &str| s@).take(i as int)),
        decreases rest@.len() - i,
    {
        let ghost before = out@;
        let ghost m = rest@.map_values(|s: &str| s@);
        out.push(to_string(rest[i]));
        assert(texts(out@) =~= texts(before).push(m[i as int]));
        assert(m.take(i + 1) =~= m.take(i as int).push(m[i as int]));
        assert(plugin_args(profile@, m.take(i + 1)) =~= plugin_args(profile@, m.take(i as int)).push(m[i as int]));
        i = i + 1;
    }
    assert(rest@.map_values(|s: &str| s@).take(rest@.len() as int) =~= rest@.map_values(|s: &str| s@));
    out
}

/// The outcome of checking a request, or the arguments it runs with.
pub open spec fn request_reports(r: Result<Vec<String>, String>, v: Result<(), Seq<char>>, args: Seq<Seq<char>>) -> bool {
    match v {
        Ok(()) => r matches Ok(a) && texts(a@) == args,
        Err(m) => r matches Err(e) && e@ == m,
    }
}

/// The verdict on installing `spec` into a profile: the spec is checked first, then
/// the profile.
pub open spec fn install_verdict(profile: Seq<char>, spec: Seq<char>) -> Result<(), Seq<char>> {
    if value_verdict("spec"@, spec) is Err {
        value_verdict("spec"@, spec)
    } else {
        profile_verdict(profile)
    }
}

/// Checks an install request and gives the arguments of
/// `dsh plugin --profile <profile> add <spec>`.
pub fn install_request(profile: &str, spec: &str) -> (r: Result<Vec<String>, String>)
    ensures
        request_reports(r, install_verdict(profile@, spec@), plugin_args(profile@, seq!["add"@, spec@])),
{
    let v = validate_value("spec", spec);
    if let Err(e) = v {
        return Err(e);
    }
    let p = validate_profile(profile);
    if let Err(e) = p {
        return Err(e);
    }
    let rest: [&str; 2] = ["add", spec];
    let args = args_for(profile, &rest);
    assert(rest@.map_values(|s: &str| s@) =~= seq!["add"@, spec@]);
    Ok(args)
}

/// The verdict on removing plugin `name` from a profile: the name is checked first
/// (and may not be `.` or `..`), then the profile.
pub open spec fn remove_verdict(profile: Seq<char>, name: Seq<char>) -> Result<(), Seq<char>> {
    if value_verdict("name"@, name) is Err {
        value_verdict("name"@, name)
    } else if name == "."@ || name == ".."@ {
        Err("name 无效"@)
    } else {
        profile_verdict(profile)
    }
}

/// Checks a remove request and gives the arguments of
/// `dsh plugin --profile <profile> remove <name>`.
pub fn remove_request(profile: &str, name: &str) -> (r: Result<Vec<String>, String>)
    ensures
        request_reports(r, remove_verdict(profile@, name@), plugin_args(profile@, seq!["remove"@, name@])),
{
    let v = validate_value("name", name);
    if let Err(e) = v {
        return Err(e);
    }
    if str_eq(name, ".") || str_eq(name, "..") {
        return Err(String::from_str("name 无效"));
    }
    let p = validate_profile(profile);
    if let Err(e) = p {
        return Err(e);
    }
    let rest: [&str; 2] = ["remove", name];
    let args = args_for(profile, &rest);
    assert(rest@.map_values(|s: &str| s@) =~= seq!["remove"@, name@]);
    Ok(args)
}

/// Checks an update request and gives the arguments of
/// `dsh plugin --profile <profile> update`.
pub fn update_request(profile: &str) -> (r: Result<Vec<String>, String>)
    ensures
        request_reports(r, profile_verdict(profile@), plugin_args(profile@, seq!["update"@])),
{
    let p = validate_profile(profile);
    if let Err(e) = p {
        return Err(e);
    }
    let rest: [&str; 1] = ["update"];
    let args = args_for(profile, &rest);
    assert(rest@.map_values(|s: &str| s@) =~= seq!["update"@]);
    Ok(args)
}

/// Keeps one line of an operation's output: trailing whitespace is cut and blank
/// lines are dropped.
pub fn collect_line(output: &mut Vec<String>, line: &str)
    ensures
        seq_trim_end(line@).len() == 0 ==> final(output)@ == old(output)@,
        seq_trim_end(line@).len() > 0 ==> final(output)@.len() == old(output)@.len() + 1
            && final(output)@.take(old(output)@.len() as int) == old(output)@
            && final(output)@.last()@ == seq_trim_end(line@),
{
    let t = trim_end(line);
    if t.unicode_len() > 0 {
        output.push(to_string(t));
        assert(final(output)@.take(old(output)@.len() as int) =~= old(output)@);
    }
}

/// The result of an operation once its process is gone: its exit (success and code)
/// with the collected output, or the cancellation error when it was cancelled.
pub fn finish_operation(exit: Option<(bool, Option<i32>)>, output: Vec<String>) -> (r: Result<PluginOperationResult, String>)
    ensures
        exit matches Some((ok, code)) ==> (r matches Ok(res) && res.ok == ok && res.exit_code == code && res.output@ == output@),
        exit is None ==> (r matches Err(e) && e@ == CANCELLED_MESSAGE@),
{
    match exit {
        Some((ok, code)) => Ok(PluginOperationResult { ok, exit_code: code, output }),
        None => Err(String::from_str(CANCELLED_MESSAGE)),
    }
}

/// Whether a plugin operation may begin: only one runs at a time, so while one is
/// running (`busy`) the request is refused with the busy error.
pub fn begin_operation(busy: bool) -> (r: Result<(), String>)
    ensures
        r is Ok <==> !busy,
        r matches Err(e) ==> e@ == BUSY_MESSAGE@,
{
    if busy {
        Err(String::from_str(BUSY_MESSAGE))
    } else {
        Ok(())
    }
}

} // verus!
