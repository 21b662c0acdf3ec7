use vstd::prelude::*;
use crate::text::{
    all_digits, decimal_value, lemma_decimal_digits, occurs_at,
    chars_of, contains, contains_seq, decimal_digits, decimal_string, replace, replace_all,
    string_from_chars,
};

verus! {

broadcast use vstd::string::group_string_axioms;

/// How to reach and check the servers: the SSH user, how long a server may
/// take to come back (in seconds), and the command, if any, that checks a
/// server in place of `ssh ... uptime`.
pub struct RebootConfig {
    pub user: String,
    pub timeout_secs: u64,
    pub verify_command: Option<String>,
}

/// A program and its arguments.
pub struct CommandLine {
    pub program: String,
    pub args: Vec<String>,
}

/// The characters of each string.
pub open spec fn args_view(v: Seq<String>) -> Seq<Seq<char>> {
    v.map_values(|s: String| s@)
}

/// The arguments that reach `host` on `port` as `user` over SSH, without
/// asking about unknown host keys and giving up on a connection after ten
/// seconds.
pub open spec fn ssh_args_spec(user: Seq<char>, host: Seq<char>, port: u16) -> Seq<Seq<char>> {
    seq![
        "-o"@,
        "StrictHostKeyChecking=no"@,
        "-o"@,
        "ConnectTimeout=10"@,
        "-p"@,
        decimal_digits(port as nat),
        "-l"@,
        user,
        host,
    ]
}

/// Law: the SSH arguments turn off the host-key prompt and set a connection
/// timeout of ten seconds, give the port with `-p` in decimal digits that
/// read as that port, log in as the user with `-l` followed by the user's
/// name, and end with the host, for every user, host and port.
pub proof fn lemma_ssh_args_reach_host(user: Seq<char>, host: Seq<char>, port: u16)
    ensures
        ({
            let a = ssh_args_spec(user, host, port);
            &&& a.len() == 9
            &&& a[0] == "-o"@ && a[1] == "StrictHostKeyChecking=no"@
            &&& a[2] == "-o"@ && a[3] == "ConnectTimeout=10"@
            &&& a[4] == "-p"@
            &&& a[5].len() > 0 && all_digits(a[5]) && decimal_value(a[5]) == port
            &&& a[6] == "-l"@
            &&& a[7] == user
            &&& a[8] == host
        }),
{
    lemma_decimal_digits(port as nat);
}

/// A custom verification command with `{host}`, `{port}` and `{user}`
/// replaced, in that order, by the server's host, port and the SSH user.
pub open spec fn expand_placeholders(
    command: Seq<char>,
    host: Seq<char>,
    port: u16,
    user: Seq<char>,
) -> Seq<char> {
    replace_all(
        replace_all(replace_all(command, "{host}"@, host), "{port}"@, decimal_digits(port as nat)),
        "{user}"@,
        user,
    )
}

/// Whether `s` holds no `{`, so that no placeholder can occur in it.
pub open spec fn no_brace(s: Seq<char>) -> bool {
    forall|j: int| 0 <= j < s.len() ==> s[j] != '{'
}

/// Text without `{` has nothing to replace.
proof fn lemma_replace_without_brace(s: Seq<char>, p: Seq<char>, r: Seq<char>)
    requires
        no_brace(s),
        p.len() > 0,
        p[0] == '{',
    ensures
        replace_all(s, p, r) == s,
    decreases s.len(),
{
    if s.len() > 0 {
        assert(!occurs_at(s, p, 0)) by {
            if occurs_at(s, p, 0) {
                assert(s.subrange(0, p.len() as int)[0] == s[0]);
            }
        }
        lemma_replace_without_brace(s.drop_first(), p, r);
        assert(seq![s[0]] + s.drop_first() =~= s);
    }
}

/// A placeholder alone is replaced by its value.
proof fn lemma_replace_alone(p: Seq<char>, r: Seq<char>)
    requires
        p.len() > 0,
    ensures
        replace_all(p, p, r) == r,
{
    assert(p.subrange(0, p.len() as int) =~= p);
    assert(occurs_at(p, p, 0));
    assert(p.skip(p.len() as int) =~= Seq::<char>::empty());
    assert(replace_all(Seq::<char>::empty(), p, r) == Seq::<char>::empty());
    assert(replace_all(p, p, r) == r + replace_all(p.skip(p.len() as int), p, r));
    assert(r + Seq::<char>::empty() =~= r);
}

/// Law: each placeholder of a custom verification command stands for its
/// value: `{host}` for the host, `{port}` for the port in decimal digits,
/// `{user}` for the SSH user; and a command without `{` runs as written.
/// (Host and user are taken without `{`, which no placeholder then finds in
/// them.)
pub proof fn lemma_placeholders_stand_for_values(
    command: Seq<char>,
    host: Seq<char>,
    port: u16,
    user: Seq<char>,
)
    requires
        no_brace(host),
        no_brace(user),
    ensures
        expand_placeholders("{host}"@, host, port, user) == host,
        expand_placeholders("{user}"@, host, port, user) == user,
        exists|d: Seq<char>|
            #![trigger decimal_value(d)]
            d.len() > 0 && all_digits(d) && decimal_value(d) == port && expand_placeholders(
                "{port}"@,
                host,
                port,
                user,
            ) == d,
        no_brace(command) ==> expand_placeholders(command, host, port, user) == command,
{
    reveal_strlit("{host}");
    reveal_strlit("{port}");
    reveal_strlit("{user}");
    let d = decimal_digits(port as nat);
    lemma_decimal_digits(port as nat);
    assert(no_brace(d)) by {
        assert forall|j: int| 0 <= j < d.len() implies d[j] != '{' by {
            assert(crate::text::is_digit(d[j]));
        }
    }
    // `{host}`
    lemma_replace_alone("{host}"@, host);
    lemma_replace_without_brace(host, "{port}"@, d);
    lemma_replace_without_brace(host, "{user}"@, user);
    // `{user}`
    let u = "{user}"@;
    assert(no_brace(u.drop_first()));
    assert(!occurs_at(u, "{host}"@, 0)) by {
        if occurs_at(u, "{host}"@, 0) {
            assert(u.subrange(0, 6)[1] == u[1]);
        }
    }
    lemma_replace_without_brace(u.drop_first(), "{host}"@, host);
    assert(seq![u[0]] + u.drop_first() =~= u);
    assert(replace_all(u, "{host}"@, host) == u);
    assert(!occurs_at(u, "{port}"@, 0)) by {
        if occurs_at(u, "{port}"@, 0) {
            assert(u.subrange(0, 6)[1] == u[1]);
        }
    }
    lemma_replace_without_brace(u.drop_first(), "{port}"@, d);
    assert(replace_all(u, "{port}"@, d) == u);
    lemma_replace_alone(u, user);
    // `{port}`
    let pp = "{port}"@;
    assert(no_brace(pp.drop_first()));
    assert(!occurs_at(pp, "{host}"@, 0)) by {
        if occurs_at(pp, "{host}"@, 0) {
            assert(pp.subrange(0, 6)[1] == pp[1]);
        }
    }
    lemma_replace_without_brace(pp.drop_first(), "{host}"@, host);
    assert(seq![pp[0]] + pp.drop_first() =~= pp);
    assert(replace_all(pp, "{host}"@, host) == pp);
    lemma_replace_alone(pp, d);
    lemma_replace_without_brace(d, "{user}"@, user);
    assert(d.len() > 0 && all_digits(d) && decimal_value(d) == port);
    // No `{` at all.
    if no_brace(command) {
        lemma_replace_without_brace(command, "{host}"@, host);
        lemma_replace_without_brace(command, "{port}"@, d);
        lemma_replace_without_brace(command, "{user}"@, user);
    }
}

/// How a reboot command ends: it succeeded, or it exited with 255 (SSH's own
/// failure, as when the server drops the connection), or its error output
/// tells that the connection was closed or reset, which a reboot causes;
/// otherwise it failed, and the reason quotes its error output.
pub open spec fn reboot_outcome_spec(
    success: bool,
    exit_code: Option<i32>,
    stderr: Seq<char>,
) -> Result<(), Seq<char>> {
    if success || exit_code == Some(255i32) {
        Ok(())
    } else if contains_seq(stderr, "closed by remote"@) || contains_seq(stderr, "Connection reset"@) {
        Ok(())
    } else {
        Err("reboot command failed: "@ + stderr)
    }
}

/// How a verification ends: it succeeded, or it failed and the reason quotes
/// its error output.
pub open spec fn verify_outcome_spec(success: bool, stderr: Seq<char>) -> Result<(), Seq<char>> {
    if success {
        Ok(())
    } else {
        Err("verify failed: "@ + stderr)
    }
}

/// Law: how a reboot command ends. It succeeded where the command
/// succeeded, where it exited with 255, or where its error output tells of
/// a connection closed by the remote end or reset. Otherwise it failed, and
/// the reason is `reboot command failed: ` followed by the error output.
pub proof fn lemma_reboot_outcome_cases(success: bool, exit_code: Option<i32>, stderr: Seq<char>)
    ensures
        success ==> reboot_outcome_spec(success, exit_code, stderr) is Ok,
        exit_code == Some(255i32) ==> reboot_outcome_spec(success, exit_code, stderr) is Ok,
        (exists|i: int| occurs_at(stderr, "closed by remote"@, i)) ==> reboot_outcome_spec(success, exit_code, stderr) is Ok,
        (exists|i: int| occurs_at(stderr, "Connection reset"@, i)) ==> reboot_outcome_spec(success, exit_code, stderr) is Ok,
        (!success && exit_code != Some(255i32) && !(exists|i: int| occurs_at(stderr, "closed by remote"@, i))
            && !(exists|i: int| occurs_at(stderr, "Connection reset"@, i))) ==> reboot_outcome_spec(
            success,
            exit_code,
            stderr,
        ) == Err::<(), Seq<char>>("reboot command failed: "@ + stderr),
{
}

/// Law: a verification succeeds exactly when its command succeeds; a failed
/// one gives `verify failed: ` followed by the error output.
pub proof fn lemma_verify_outcome_cases(success: bool, stderr: Seq<char>)
    ensures
        verify_outcome_spec(success, stderr) is Ok <==> success,
        !success ==> verify_outcome_spec(success, stderr) == Err::<(), Seq<char>>("verify failed: "@ + stderr),
{
}

/// `prefix` followed by `rest`.
fn joined(prefix: &str, rest: &str) -> (r: String)
    ensures
        r@ == prefix@ + rest@,
{
    let mut s = String::from_str(prefix);
    s.append(rest);
    s
}

/// The SSH arguments that reach `host` on `port` as `user`.
fn ssh_args(user: &String, host: &str, port: u16) -> (r: Vec<String>)
    ensures
        args_view(r@) == ssh_args_spec(user@, host@, port),
{
    let mut args: Vec<String> = Vec::new();
    args.push(String::from_str("-o"));
    args.push(String::from_str("StrictHostKeyChecking=no"));
    args.push(String::from_str("-o"));
    args.push(String::from_str("ConnectTimeout=10"));
    args.push(String::from_str("-p"));
    args.push(decimal_string(port as u64));
    args.push(String::from_str("-l"));
    args.push(user.clone());
    args.push(String::from_str(host));
    assert(args_view(args@) =~= ssh_args_spec(user@, host@, port));
    args
}

/// Seconds in a minute.
pub const SECS_PER_MINUTE: u64 = 60;

/// Milliseconds in a second.
pub const MS_PER_SEC: u64 = 1_000;

/// A time in seconds as milliseconds, held at `u64::MAX` where it does not
/// fit: a deadline that far away never comes.
pub open spec fn secs_to_ms(secs: u64) -> u64 {
    if secs * MS_PER_SEC > u64::MAX {
        u64::MAX
    } else {
        (secs * MS_PER_SEC) as u64
    }
}

impl RebootConfig {
    /// The configuration for SSH user `user`, a timeout of `timeout_minutes`
    /// minutes, and an optional custom verification command. The timeout in
    /// seconds must fit in a `u64`.
    pub fn new(user: String, timeout_minutes: u64, verify_command: Option<String>) -> (r: Self)
        requires
            timeout_minutes * SECS_PER_MINUTE <= u64::MAX,
        ensures
            r.user == user,
            r.timeout_secs == timeout_minutes * SECS_PER_MINUTE,
            r.verify_command == verify_command,
    {
        RebootConfig { user, timeout_secs: timeout_minutes * SECS_PER_MINUTE, verify_command }
    }

    /// The timeout in milliseconds (see `secs_to_ms`).
    pub fn timeout_ms(&self) -> (r: u64)
        ensures
            r == secs_to_ms(self.timeout_secs),
    {
        if self.timeout_secs > u64::MAX / MS_PER_SEC {
            u64::MAX
        } else {
            self.timeout_secs * MS_PER_SEC
        }
    }

    /// The command that reboots `host`: `ssh` with the SSH arguments and
    /// `sudo reboot`.
    pub fn reboot_command_line(&self, host: &str, port: u16) -> (r: CommandLine)
        ensures
            r.program@ == "ssh"@,
            args_view(r.args@) == ssh_args_spec(self.user@, host@, port).push("sudo reboot"@),
    {
        let mut args = ssh_args(&self.user, host, port);
        args.push(String::from_str("sudo reboot"));
        assert(args_view(args@) =~= ssh_args_spec(self.user@, host@, port).push("sudo reboot"@));
        CommandLine { program: String::from_str("ssh"), args }
    }

    /// The command that checks whether `host` is back: the custom command,
    /// with its placeholders filled in, run by `sh -c`; or else `ssh` with the
    /// SSH arguments and `uptime`.
    pub fn verify_command_line(&self, host: &str, port: u16) -> (r: CommandLine)
        ensures
            match self.verify_command {
                Some(custom) => {
                    &&& r.program@ == "sh"@
                    &&& args_view(r.args@) == seq![
                        "-c"@,
                        expand_placeholders(custom@, host@, port, self.user@),
                    ]
                },
                None => {
                    &&& r.program@ == "ssh"@
                    &&& args_view(r.args@) == ssh_args_spec(self.user@, host@, port).push(
                        "uptime"@,
                    )
                },
            },
    {
        match &self.verify_command {
            Some(custom) => {
                let expanded = expand(custom.as_str(), host, port, self.user.as_str());
                let mut args: Vec<String> = Vec::new();
                args.push(String::from_str("-c"));
                args.push(expanded);
                assert(args_view(args@) =~= seq![
                    "-c"@,
                    expand_placeholders(custom@, host@, port, self.user@),
                ]);
                CommandLine { program: String::from_str("sh"), args }
            },
            None => {
                let mut args = ssh_args(&self.user, host, port);
                args.push(String::from_str("uptime"));
                assert(args_view(args@) =~= ssh_args_spec(self.user@, host@, port).push("uptime"@));
                CommandLine { program: String::from_str("ssh"), args }
            },
        }
    }

    /// The reason given when the verification command cannot be started:
    /// `detail` after a prefix that names the custom command or SSH.
    pub fn verify_launch_error(&self, detail: &str) -> (r: String)
        ensures
            r@ == (if self.verify_command is Some {
                "verify command failed: "@
            } else {
                "ssh failed: "@
            }) + detail@,
    {
        if self.verify_command.is_some() {
            joined("verify command failed: ", detail)
        } else {
            joined("ssh failed: ", detail)
        }
    }
}

/// A custom verification command with its placeholders filled in.
fn expand(command: &str, host: &str, port: u16, user: &str) -> (r: String)
    ensures
        r@ == expand_placeholders(command@, host@, port, user@),
{
    proof {
        reveal_strlit("{host}");
        reveal_strlit("{port}");
        reveal_strlit("{user}");
    }
    let c = chars_of(command);
    let step1 = replace(&c, &chars_of("{host}"), &chars_of(host));
    let step2 = replace(&step1, &chars_of("{port}"), &decimal_chars_of(port));
    let step3 = replace(&step2, &chars_of("{user}"), &chars_of(user));
    string_from_chars(step3.as_slice())
}

/// The decimal digits of a port number.
fn decimal_chars_of(port: u16) -> (r: Vec<char>)
    ensures
        r@ == decimal_digits(port as nat),
{
    crate::text::decimal_chars(port as u64)
}

/// The reason given when the reboot command cannot be started.
pub fn reboot_launch_error(detail: &str) -> (r: String)
    ensures
        r@ == "ssh failed: "@ + detail@,
{
    joined("ssh failed: ", detail)
}

/// How a reboot command ended, from whether it succeeded, its exit code and
/// its error output (see `reboot_outcome_spec`).
pub fn reboot_outcome(success: bool, exit_code: Option<i32>, stderr: &str) -> (r: Result<(), String>)
    ensures
        match r {
            Ok(()) => reboot_outcome_spec(success, exit_code, stderr@) == Ok::<(), Seq<char>>(()),
            Err(e) => reboot_outcome_spec(success, exit_code, stderr@) == Err::<(), Seq<char>>(e@),
        },
{
    if success || exit_code == Some(255i32) {
        Ok(())
    } else if contains(stderr, "closed by remote") || contains(stderr, "Connection reset") {
        Ok(())
    } else {
        Err(joined("reboot command failed: ", stderr))
    }
}

/// How a verification ended, from whether it succeeded and its error output.
pub fn verify_outcome(success: bool, stderr: &str) -> (r: Result<(), String>)
    ensures
        match r {
            Ok(()) => verify_outcome_spec(success, stderr@) == Ok::<(), Seq<char>>(()),
            Err(e) => verify_outcome_spec(success, stderr@) == Err::<(), Seq<char>>(e@),
        },
{
    if success {
        Ok(())
    } else {
        Err(joined("verify failed: ", stderr))
    }
}

} // verus!
