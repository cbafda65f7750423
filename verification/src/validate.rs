//! What may be entered: names, commands, ssh users and hosts.
use vstd::prelude::*;

use crate::chars;
use crate::entry;
use crate::entry::AliasEntry;
use crate::line;
use crate::text;

verus! {

/// The result of a check whose complaint, if there is one, is `problem`.
pub open spec fn reports(r: Result<(), String>, problem: Option<Seq<char>>) -> bool {
    match r {
        Ok(()) => problem is None,
        Err(m) => problem == Some(m@),
    }
}

// ---------------------------------------------------------------------------
// Names
// ---------------------------------------------------------------------------

/// What is wrong with a new name, white space around it aside.
pub open spec fn name_problem(value: Seq<char>, existing: Seq<entry::Alias>) -> Option<Seq<char>> {
    let v = text::trimmed(value);
    if v.len() == 0 {
        Some("the alias name cannot be empty"@)
    } else if !line::valid_name(v) {
        Some(
            "alias names must start with a letter, digit or '_' and contain only letters, digits, '_', '.', '-'"@,
        )
    } else if entry::is_named_in(existing, v) {
        Some("'"@ + v + "' is already managed by am; delete it first with: am delete "@ + v)
    } else {
        None
    }
}

/// Whether one of the entries is called `name`.
pub fn has_name(existing: &Vec<AliasEntry>, name: &str) -> (r: bool)
    ensures
        r == entry::is_named_in(entry::aliases(existing@), name@),
{
    let mut i: usize = 0;
    while i < existing.len()
        invariant
            i <= existing@.len(),
            forall|k: int| 0 <= k < i ==> (#[trigger] entry::aliases(existing@)[k]).name != name@,
        decreases existing@.len() - i,
    {
        assert(entry::aliases(existing@)[i as int] == existing@[i as int]@);
        if text::same_text(existing[i].name.as_str(), name) {
            return true;
        }
        i = i + 1;
    }
    false
}

/// Checks the name for a new alias: it is not empty, has the characters that
/// a name may have, and no entry has it yet.
pub fn validate_alias_name(value: &str, existing: &Vec<AliasEntry>) -> (r: Result<(), String>)
    ensures
        reports(r, name_problem(value@, entry::aliases(existing@))),
{
    let v: String = text::trim(value);
    if v.as_str().is_empty() {
        return Err("the alias name cannot be empty".to_string());
    }
    if !line::is_valid_alias_name(v.as_str()) {
        return Err(
            "alias names must start with a letter, digit or '_' and contain only letters, digits, '_', '.', '-'".to_string(),
        );
    }
    if has_name(existing, v.as_str()) {
        let mut m: String = String::new();
        m.push_str("'");
        m.push_str(v.as_str());
        m.push_str("' is already managed by am; delete it first with: am delete ");
        m.push_str(v.as_str());
        assert(m@ == "'"@ + v@ + "' is already managed by am; delete it first with: am delete "@
            + v@);
        return Err(m);
    }
    Ok(())
}

// ---------------------------------------------------------------------------
// Commands
// ---------------------------------------------------------------------------

/// Whether a text holds a control character.
pub open spec fn has_control(s: Seq<char>) -> bool {
    exists|i: int| 0 <= i < s.len() && chars::is_control_char(#[trigger] s[i])
}

fn contains_control(s: &str) -> (r: bool)
    ensures
        r == has_control(s@),
{
    let v: Vec<char> = text::to_chars(s);
    let mut i: usize = 0;
    while i < v.len()
        invariant
            v@ == s@,
            i <= v@.len(),
            forall|k: int| 0 <= k < i ==> !chars::is_control_char(#[trigger] v@[k]),
        decreases v@.len() - i,
    {
        if chars::is_control(v[i]) {
            return true;
        }
        i = i + 1;
    }
    false
}

/// What is wrong with a command, white space around it aside.
pub open spec fn action_problem(action: Seq<char>) -> Option<Seq<char>> {
    let t = text::trimmed(action);
    if t.len() == 0 {
        Some("the action cannot be empty"@)
    } else if has_control(t) {
        Some("the action cannot contain newlines or control characters"@)
    } else if t.contains('"') && t.contains('\'') {
        Some("the action contains both ' and \" and cannot be stored as a bash alias"@)
    } else {
        None
    }
}

/// Checks a command: it is not empty, is one line without control characters,
/// and does not hold both kinds of quotes.
pub fn validate_action(action: &str) -> (r: Result<(), String>)
    ensures
        reports(r, action_problem(action@)),
{
    let t: String = text::trim(action);
    if t.as_str().is_empty() {
        return Err("the action cannot be empty".to_string());
    }
    if contains_control(t.as_str()) {
        return Err("the action cannot contain newlines or control characters".to_string());
    }
    if text::has_char(t.as_str(), '"') && text::has_char(t.as_str(), '\'') {
        return Err(
            "the action contains both ' and \" and cannot be stored as a bash alias".to_string(),
        );
    }
    Ok(())
}

// ---------------------------------------------------------------------------
// SSH
// ---------------------------------------------------------------------------

/// The characters of an ssh user.
pub open spec fn in_user(c: char) -> bool {
    chars::is_alnum(c) || c == '.' || c == '_' || c == '-'
}

/// The characters of a host name or an address.
pub open spec fn in_host(c: char) -> bool {
    chars::is_alnum(c) || c == '.' || c == ':' || c == '_' || c == '-'
}

/// What is wrong with an ssh user, white space around it aside.
pub open spec fn user_problem(user: Seq<char>) -> Option<Seq<char>> {
    let t = text::trimmed(user);
    if t.len() == 0 {
        Some("the ssh user cannot be empty"@)
    } else if !(chars::is_alnum(t[0]) || t[0] == '_') || !(forall|i: int|
        0 <= i < t.len() ==> in_user(#[trigger] t[i])) {
        Some(
            "the ssh user must start with a letter, digit or '_' and may only contain letters, digits, '.', '_' and '-'"@,
        )
    } else {
        None
    }
}

/// What is wrong with a host, white space around it aside.
pub open spec fn host_problem(host: Seq<char>) -> Option<Seq<char>> {
    let t = text::trimmed(host);
    if t.len() == 0 {
        Some("the host cannot be empty"@)
    } else if !(forall|i: int| 0 <= i < t.len() ==> in_host(#[trigger] t[i])) {
        Some(
            "the host may only contain letters, digits, '.', ':', '_' and '-' (a hostname, IPv4 or IPv6 address)"@,
        )
    } else {
        None
    }
}

/// Checks an ssh user: a letter, digit or `_`, then letters, digits, `.`, `_`
/// and `-`.
pub fn validate_ssh_user(user: &str) -> (r: Result<(), String>)
    ensures
        reports(r, user_problem(user@)),
{
    let t: String = text::trim(user);
    let v: Vec<char> = text::to_chars(t.as_str());
    if v.len() == 0 {
        return Err("the ssh user cannot be empty".to_string());
    }
    let first_ok: bool = chars::is_ascii_alphanumeric(v[0]) || v[0] == '_';
    let mut rest_ok: bool = true;
    let mut i: usize = 0;
    while i < v.len()
        invariant
            i <= v@.len(),
            rest_ok == (forall|k: int| 0 <= k < i ==> in_user(#[trigger] v@[k])),
        decreases v@.len() - i,
    {
        let c: char = v[i];
        rest_ok = rest_ok && (chars::is_ascii_alphanumeric(c) || c == '.' || c == '_' || c == '-');
        i = i + 1;
    }
    if !first_ok || !rest_ok {
        return Err(
            "the ssh user must start with a letter, digit or '_' and may only contain letters, digits, '.', '_' and '-'".to_string(),
        );
    }
    Ok(())
}

/// Checks a host: a host name, an IPv4 or an IPv6 address, made of letters,
/// digits, `.`, `:`, `_` and `-`.
pub fn validate_ssh_host(host: &str) -> (r: Result<(), String>)
    ensures
        reports(r, host_problem(host@)),
{
    let t: String = text::trim(host);
    let v: Vec<char> = text::to_chars(t.as_str());
    if v.len() == 0 {
        return Err("the host cannot be empty".to_string());
    }
    let mut i: usize = 0;
    while i < v.len()
        invariant
            v@ == t@,
            v@.len() > 0,
            t@ == text::trimmed(host@),
            i <= v@.len(),
            forall|k: int| 0 <= k < i ==> in_host(#[trigger] v@[k]),
        decreases v@.len() - i,
    {
        let c: char = v[i];
        if !(chars::is_ascii_alphanumeric(c) || c == '.' || c == ':' || c == '_' || c == '-') {
            assert(!in_host(v@[i as int]));
            return Err(
                "the host may only contain letters, digits, '.', ':', '_' and '-' (a hostname, IPv4 or IPv6 address)".to_string(),
            );
        }
        i = i + 1;
    }
    Ok(())
}

/// The command that connects `user` to `host`.
pub open spec fn ssh_command(user: Seq<char>, host: Seq<char>) -> Seq<char> {
    "ssh "@ + text::trimmed(user) + "@"@ + text::trimmed(host)
}

/// Builds the action for an ssh alias: `ssh <user>@<host>`.
pub fn ssh_action(user: &str, host: &str) -> (r: String)
    ensures
        r@ == ssh_command(user@, host@),
{
    let mut out: String = String::new();
    out.push_str("ssh ");
    out.push_str(text::trim(user).as_str());
    out.push_str("@");
    out.push_str(text::trim(host).as_str());
    assert(out@ == ssh_command(user@, host@));
    out
}

// ---------------------------------------------------------------------------
// Laws
// ---------------------------------------------------------------------------

/// Whether an action can be stored on one line.
pub open spec fn storable(action: Seq<char>) -> bool {
    line::quoted(action) is Some && !action.contains('\n')
}

/// A command that passes the check can be stored on one line.
pub proof fn law_valid_command_is_storable(action: Seq<char>)
    requires
        action_problem(action) is None,
    ensures
        storable(text::trimmed(action)),
{
    let t = text::trimmed(action);
    if t.contains('\n') {
        let i = choose|i: int| 0 <= i < t.len() && t[i] == '\n';
        assert(chars::is_control_char(t[i]));
    }
}

/// The argument that is stored for a user and a host that pass the check
/// cannot look like an option of ssh, and the command can be stored on one
/// line.
pub proof fn law_valid_ssh_is_storable(user: Seq<char>, host: Seq<char>)
    requires
        user_problem(user) is None,
        host_problem(host) is None,
    ensures
        ssh_command(user, host).take(4) == "ssh "@,
        ssh_command(user, host)[4] != '-',
        storable(ssh_command(user, host)),
{
    reveal_strlit("ssh ");
    reveal_strlit("@");
    let u = text::trimmed(user);
    let h = text::trimmed(host);
    let s = ssh_command(user, host);
    assert(s.take(4) =~= "ssh "@);
    assert(s[4] == u[0]);
    assert forall|i: int| 0 <= i < s.len() implies s[i] != '"' && s[i] != '\n' by {
        if i < 4 {
            assert(s[i] == "ssh "@[i]);
        } else if i < 4 + u.len() {
            assert(s[i] == u[i - 4]);
            assert(in_user(u[i - 4]));
        } else if i < 5 + u.len() {
            assert(s[i] == '@');
        } else {
            assert(s[i] == h[i - 5 - u.len()]);
            assert(in_host(h[i - 5 - u.len()]));
        }
    }
}

/// A check passes just where there is no complaint, and otherwise says it.
pub proof fn law_complaint_is_passed_on(r: Result<(), String>, problem: Option<Seq<char>>)
    requires
        reports(r, problem),
    ensures
        r is Ok <==> problem is None,
        r matches Err(m) ==> problem == Some(m@),
{
}

/// A new name is accepted just where, white space around it aside, it is made
/// of the right characters and no alias has it; otherwise the complaint says
/// which of these fails.
pub proof fn law_new_names(value: Seq<char>, existing: Seq<entry::Alias>)
    ensures
        ({
            let t = text::trimmed(value);
            let spelled = {
                &&& t.len() > 0
                &&& t[0] != '.' && t[0] != '-'
                &&& forall|i: int|
                    0 <= i < t.len() ==> ('a' <= #[trigger] t[i] <= 'z' || 'A' <= t[i] <= 'Z' || '0'
                        <= t[i] <= '9' || t[i] == '_' || t[i] == '.' || t[i] == '-')
            };
            let fresh = forall|k: int| 0 <= k < existing.len() ==> (#[trigger] existing[k]).name != t;
            let p = name_problem(value, existing);
            &&& p is None <==> spelled && fresh
            &&& t.len() == 0 ==> p == Some("the alias name cannot be empty"@)
            &&& t.len() > 0 && !spelled ==> p == Some(
                "alias names must start with a letter, digit or '_' and contain only letters, digits, '_', '.', '-'"@,
            )
            &&& spelled && !fresh ==> p == Some(
                "'"@ + t + "' is already managed by am; delete it first with: am delete "@ + t,
            )
        }),
{
    let t = text::trimmed(value);
    line::law_valid_names(t);
    if !entry::is_named_in(existing, t) {
        assert forall|k: int| 0 <= k < existing.len() implies (#[trigger] existing[k]).name != t by {
        }
    }
}

/// A command is accepted just where, white space around it aside, it is not
/// empty, has no control character anywhere, and does not hold both quotes;
/// otherwise the complaint says which of these fails.
pub proof fn law_commands(action: Seq<char>)
    ensures
        ({
            let t = text::trimmed(action);
            let printable = forall|i: int|
                0 <= i < t.len() ==> (#[trigger] t[i] as u32) > 0x1f && !(0x7f <= t[i] as u32
                    <= 0x9f);
            let quotable = (forall|i: int| 0 <= i < t.len() ==> #[trigger] t[i] != '"') || (forall|
                i: int,
            |
                0 <= i < t.len() ==> #[trigger] t[i] != '\'');
            let p = action_problem(action);
            &&& p is None <==> t.len() > 0 && printable && quotable
            &&& t.len() == 0 ==> p == Some("the action cannot be empty"@)
            &&& t.len() > 0 && !printable ==> p == Some(
                "the action cannot contain newlines or control characters"@,
            )
            &&& t.len() > 0 && printable && !quotable ==> p == Some(
                "the action contains both ' and \" and cannot be stored as a bash alias"@,
            )
        }),
{
    let t = text::trimmed(action);
    if has_control(t) {
        let i = choose|i: int| 0 <= i < t.len() && chars::is_control_char(#[trigger] t[i]);
        assert(!((t[i] as u32) > 0x1f && !(0x7f <= t[i] as u32 <= 0x9f)));
    } else {
        assert forall|i: int| 0 <= i < t.len() implies (#[trigger] t[i] as u32) > 0x1f && !(0x7f
            <= t[i] as u32 <= 0x9f) by {
            assert(!chars::is_control_char(t[i]));
        }
    }
    if t.contains('"') {
        let i = choose|i: int| 0 <= i < t.len() && t[i] == '"';
        assert(t[i] == '"');
    }
    if t.contains('\'') {
        let i = choose|i: int| 0 <= i < t.len() && t[i] == '\'';
        assert(t[i] == '\'');
    }
}

/// An ssh user is accepted just where, white space around it aside, it starts
/// with an ASCII letter, a digit or `_`, and goes on with these, `.` and `-`.
pub proof fn law_ssh_users(user: Seq<char>)
    ensures
        ({
            let t = text::trimmed(user);
            let p = user_problem(user);
            &&& p is None <==> {
                &&& t.len() > 0
                &&& t[0] != '.' && t[0] != '-'
                &&& forall|i: int|
                    0 <= i < t.len() ==> ('a' <= #[trigger] t[i] <= 'z' || 'A' <= t[i] <= 'Z' || '0'
                        <= t[i] <= '9' || t[i] == '_' || t[i] == '.' || t[i] == '-')
            }
            &&& t.len() == 0 ==> p == Some("the ssh user cannot be empty"@)
            &&& t.len() > 0 && p is Some ==> p == Some(
                "the ssh user must start with a letter, digit or '_' and may only contain letters, digits, '.', '_' and '-'"@,
            )
        }),
{
    let t = text::trimmed(user);
    if forall|i: int|
        0 <= i < t.len() ==> ('a' <= #[trigger] t[i] <= 'z' || 'A' <= t[i] <= 'Z' || '0' <= t[i]
            <= '9' || t[i] == '_' || t[i] == '.' || t[i] == '-') {
        assert forall|i: int| 0 <= i < t.len() implies in_user(#[trigger] t[i]) by {}
    }
    if user_problem(user) is None {
        assert forall|i: int| 0 <= i < t.len() implies ('a' <= #[trigger] t[i] <= 'z' || 'A' <= t[i]
            <= 'Z' || '0' <= t[i] <= '9' || t[i] == '_' || t[i] == '.' || t[i] == '-') by {
            assert(in_user(t[i]));
        }
    }
}

/// A host is accepted just where, white space around it aside, it is made of
/// ASCII letters, digits, `.`, `:`, `_` and `-`.
pub proof fn law_ssh_hosts(host: Seq<char>)
    ensures
        ({
            let t = text::trimmed(host);
            let p = host_problem(host);
            &&& p is None <==> {
                &&& t.len() > 0
                &&& forall|i: int|
                    0 <= i < t.len() ==> ('a' <= #[trigger] t[i] <= 'z' || 'A' <= t[i] <= 'Z' || '0'
                        <= t[i] <= '9' || t[i] == '.' || t[i] == ':' || t[i] == '_' || t[i] == '-')
            }
            &&& t.len() == 0 ==> p == Some("the host cannot be empty"@)
            &&& t.len() > 0 && p is Some ==> p == Some(
                "the host may only contain letters, digits, '.', ':', '_' and '-' (a hostname, IPv4 or IPv6 address)"@,
            )
        }),
{
    let t = text::trimmed(host);
    if forall|i: int|
        0 <= i < t.len() ==> ('a' <= #[trigger] t[i] <= 'z' || 'A' <= t[i] <= 'Z' || '0' <= t[i]
            <= '9' || t[i] == '.' || t[i] == ':' || t[i] == '_' || t[i] == '-') {
        assert forall|i: int| 0 <= i < t.len() implies in_host(#[trigger] t[i]) by {}
    }
    if host_problem(host) is None {
        assert forall|i: int| 0 <= i < t.len() implies ('a' <= #[trigger] t[i] <= 'z' || 'A' <= t[i]
            <= 'Z' || '0' <= t[i] <= '9' || t[i] == '.' || t[i] == ':' || t[i] == '_' || t[i]
            == '-') by {
            assert(in_host(t[i]));
        }
    }
}

/// An ssh action connects to all of the user and all of the host, white space
/// around them aside, and holds nothing else but `ssh ` and one `@`. Of a user
/// that passes the check, the host is what follows the first `@`.
pub proof fn law_ssh_action_names_user_and_host(user: Seq<char>, host: Seq<char>)
    ensures
        ({
            let u = text::trimmed(user);
            let h = text::trimmed(host);
            let s = ssh_command(user, host);
            let at = 4 + u.len() as int;
            &&& s.len() == 5 + u.len() + h.len()
            &&& s[0] == 's' && s[1] == 's' && s[2] == 'h' && s[3] == ' '
            &&& s.subrange(4, at) == u
            &&& s[at] == '@'
            &&& s.skip(at + 1) == h
            &&& user_problem(user) is None ==> forall|k: int| 0 <= k < at ==> #[trigger] s[k] != '@'
        }),
{
    reveal_strlit("ssh ");
    reveal_strlit("@");
    let u = text::trimmed(user);
    let h = text::trimmed(host);
    let s = ssh_command(user, host);
    let at = 4 + u.len() as int;
    assert(s.subrange(4, at) =~= u);
    assert(s.skip(at + 1) =~= h);
    if user_problem(user) is None {
        assert forall|k: int| 0 <= k < at implies #[trigger] s[k] != '@' by {
            if k < 4 {
                assert(s[k] == "ssh "@[k]);
            } else {
                assert(s[k] == u[k - 4]);
                assert(in_user(u[k - 4]));
            }
        }
    }
}

/// Two ssh actions are the same just where they connect the same user to the
/// same host.
pub proof fn law_ssh_actions_tell_apart(
    user: Seq<char>,
    host: Seq<char>,
    other_user: Seq<char>,
    other_host: Seq<char>,
)
    requires
        user_problem(user) is None,
        user_problem(other_user) is None,
    ensures
        ssh_command(user, host) == ssh_command(other_user, other_host) <==> text::trimmed(user)
            == text::trimmed(other_user) && text::trimmed(host) == text::trimmed(other_host),
{
    law_ssh_action_names_user_and_host(user, host);
    law_ssh_action_names_user_and_host(other_user, other_host);
    let s = ssh_command(user, host);
    if s == ssh_command(other_user, other_host) {
        let a = 4 + text::trimmed(user).len() as int;
        let b = 4 + text::trimmed(other_user).len() as int;
        assert(s[a] == '@' && s[b] == '@');
        assert(a == b);
    }
}

} // verus!
