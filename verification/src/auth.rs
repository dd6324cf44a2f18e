//! Role checks and the decisions of user management statements.
use vstd::prelude::*;
use vstd::string::StringExecFns;
use crate::error::{ErrorKind, ExecutionError, fails_with, make_error};
use crate::text::{chars_of, to_uppercase, uppercase_of};

verus! {

/// Whether `s` is one of the five listed role names.
pub open spec fn revocable_role(s: Seq<char>) -> bool {
    s == "GOD"@ || assignable_role(s)
}

/// Roles that a persisted user may be given; GOD belongs to the root alone.
pub open spec fn assignable_role(s: Seq<char>) -> bool {
    s == "ADMIN"@ || s == "DBA"@ || s == "USER"@ || s == "GUEST"@
}

/// Whether some role in `roles` is GOD or ADMIN.
pub open spec fn has_admin_role(roles: Seq<String>) -> bool {
    exists|i: int| 0 <= i < roles.len() && (#[trigger] roles[i]@ == "GOD"@ || roles[i]@ == "ADMIN"@)
}

/// Whether `s` equals `root` ignoring ASCII case.
pub open spec fn is_root_name(s: Seq<char>) -> bool {
    &&& s.len() == 4
    &&& (s[0] == 'r' || s[0] == 'R')
    &&& (s[1] == 'o' || s[1] == 'O')
    &&& (s[2] == 'o' || s[2] == 'O')
    &&& (s[3] == 't' || s[3] == 'T')
}

fn is_one_of(s: &String, a: &str, b: &str) -> (r: bool)
    ensures
        r == (s@ == a@ || s@ == b@),
{
    let a = String::from_str(a);
    let b = String::from_str(b);
    *s == a || *s == b
}

/// Whether the caller holds GOD or ADMIN.
pub fn is_admin(roles: &Vec<String>) -> (r: bool)
    ensures
        r == has_admin_role(roles@),
{
    let mut i: usize = 0;
    while i < roles.len()
        invariant
            i <= roles.len(),
            forall|k: int| 0 <= k < i ==> !(#[trigger] roles@[k]@ == "GOD"@ || roles@[k]@ == "ADMIN"@),
        decreases roles.len() - i,
    {
        if is_one_of(&roles[i], "GOD", "ADMIN") {
            assert(roles@[i as int]@ == "GOD"@ || roles@[i as int]@ == "ADMIN"@);
            return true;
        }
        i = i + 1;
    }
    false
}

/// Whether `username` is `root` in any ASCII case.
pub fn is_root_username(username: &str) -> (r: bool)
    ensures
        r == is_root_name(username@),
{
    let c = chars_of(username);
    c.len() == 4 && (c[0] == 'r' || c[0] == 'R') && (c[1] == 'o' || c[1] == 'O') && (c[2] == 'o'
        || c[2] == 'O') && (c[3] == 't' || c[3] == 'T')
}

/// Upper-cases a role and accepts it only when it may be assigned.
pub fn validate_and_normalize_assignable_role(role: &str) -> (r: Result<String, ExecutionError>)
    ensures
        match r {
            Ok(s) => s@ == uppercase_of(role@) && assignable_role(s@),
            Err(e) => !assignable_role(uppercase_of(role@)) && e.spec_kind()
                == ErrorKind::InvalidOperation && e.spec_detail()
                == "Role cannot be assigned; valid roles are ADMIN, DBA, USER, and GUEST"@,
        },
{
    let normalized = to_uppercase(role);
    if !(is_one_of(&normalized, "ADMIN", "DBA") || is_one_of(&normalized, "USER", "GUEST")) {
        return Err(
            make_error(
                ErrorKind::InvalidOperation,
                String::from_str(
                    "Role cannot be assigned; valid roles are ADMIN, DBA, USER, and GUEST",
                ),
            ),
        );
    }
    Ok(normalized)
}

/// Upper-cases a role and accepts it only when it may be revoked. GOD stays
/// revocable so that records which predate the root-only rule can be repaired.
pub fn validate_and_normalize_revocable_role(role: &str) -> (r: Result<String, ExecutionError>)
    ensures
        match r {
            Ok(s) => s@ == uppercase_of(role@) && revocable_role(s@),
            Err(e) => !revocable_role(uppercase_of(role@)) && e.spec_kind()
                == ErrorKind::InvalidOperation && e.spec_detail()
                == "Role cannot be revoked; valid roles are GOD, ADMIN, DBA, USER, and GUEST"@,
        },
{
    let normalized = to_uppercase(role);
    let god = String::from_str("GOD");
    if !(normalized == god || is_one_of(&normalized, "ADMIN", "DBA") || is_one_of(
        &normalized,
        "USER",
        "GUEST",
    )) {
        return Err(
            make_error(
                ErrorKind::InvalidOperation,
                String::from_str(
                    "Role cannot be revoked; valid roles are GOD, ADMIN, DBA, USER, and GUEST",
                ),
            ),
        );
    }
    Ok(normalized)
}

/// Whether `roles` holds a role with these characters.
pub open spec fn holds_role(roles: Seq<String>, role: Seq<char>) -> bool {
    exists|i: int| 0 <= i < roles.len() && #[trigger] roles[i]@ == role
}

/// `roles` with `role` appended unless it is already there.
pub fn grant_role(roles: Vec<String>, role: String) -> (r: Vec<String>)
    ensures
        holds_role(roles@, role@) ==> r@ == roles@,
        !holds_role(roles@, role@) ==> r@ == roles@.push(role),
        holds_role(r@, role@),
{
    let mut i: usize = 0;
    while i < roles.len()
        invariant
            i <= roles.len(),
            forall|k: int| 0 <= k < i ==> #[trigger] roles@[k]@ != role@,
        decreases roles.len() - i,
    {
        if roles[i] == role {
            assert(roles@[i as int]@ == role@);
            return roles;
        }
        i = i + 1;
    }
    let mut roles = roles;
    roles.push(role);
    assert(roles@[roles@.len() - 1]@ == role@);
    roles
}

/// After REVOKE the role is gone, and every other role the user held stays.
pub proof fn lemma_revoke_removes_only_role(roles: Seq<String>, role: Seq<char>)
    ensures
        !holds_role(without_role(roles, role), role),
        forall|i: int|
            0 <= i < roles.len() && (#[trigger] roles[i])@ != role ==> holds_role(
                without_role(roles, role),
                roles[i]@,
            ),
{
    let pred = other_than(role);
    let kept = roles.filter(pred);
    assert forall|k: int| 0 <= k < kept.len() implies #[trigger] kept[k]@ != role by {
        roles.lemma_filter_pred(pred, k);
    }
    assert forall|i: int| 0 <= i < roles.len() && (#[trigger] roles[i])@ != role implies holds_role(
        kept,
        roles[i]@,
    ) by {
        roles.lemma_filter_contains(pred, i);
        let k = choose|k: int| 0 <= k < kept.len() && kept[k] == roles[i];
        assert(kept[k]@ == roles[i]@);
    }
}

/// `roles` without any entry equal to `role`, the others kept in order.
pub open spec fn without_role(roles: Seq<String>, role: Seq<char>) -> Seq<String> {
    roles.filter(other_than(role))
}

/// Holds of the roles that are not `role`.
pub open spec fn other_than(role: Seq<char>) -> spec_fn(String) -> bool {
    |r: String| r@ != role
}

/// Removes every occurrence of `role` from `roles`.
pub fn revoke_role(roles: &Vec<String>, role: &String) -> (r: Vec<String>)
    ensures
        r@ == without_role(roles@, role@),
{
    let mut kept: Vec<String> = Vec::new();
    let mut i: usize = 0;
    proof {
        reveal(Seq::filter);
    }
    while i < roles.len()
        invariant
            i <= roles.len(),
            kept@ == without_role(roles@.take(i as int), role@),
        decreases roles.len() - i,
    {
        assert(roles@.take(i + 1).drop_last() =~= roles@.take(i as int));
        proof {
            reveal(Seq::filter);
        }
        if roles[i] != *role {
            kept.push(roles[i].clone());
        }
        i = i + 1;
    }
    assert(roles@.take(roles.len() as int) =~= roles@);
    kept
}

/// `"User "` + name + `suffix`, the form of the per-user error details.
pub open spec fn user_detail(username: Seq<char>, suffix: Seq<char>) -> Seq<char> {
    "User "@ + username + suffix
}

fn user_error(username: &str, suffix: &str) -> (e: ExecutionError)
    ensures
        e.spec_kind() == ErrorKind::InvalidOperation,
        e.spec_detail() == user_detail(username@, suffix@),
{
    let mut detail = String::from_str("User ");
    detail.append(username);
    detail.append(suffix);
    make_error(ErrorKind::InvalidOperation, detail)
}

fn invalid(detail: &str) -> (e: ExecutionError)
    ensures
        e.spec_kind() == ErrorKind::InvalidOperation,
        e.spec_detail() == detail@,
{
    make_error(ErrorKind::InvalidOperation, String::from_str(detail))
}

/// What CREATE USER goes on to do once the store has said whether the user
/// exists.
#[derive(Debug)]
pub enum CreateUserAction {
    /// The user exists and IF NOT EXISTS was given: nothing to do.
    Skip,
    /// Store a new user with this (normalised) role, if any.
    Create { role: Option<String> },
}

/// The outcome of CREATE USER before anything is written.
pub open spec fn create_user_outcome(
    caller_is_admin: bool,
    username: Seq<char>,
    if_not_exists: bool,
    exists: bool,
    role: Option<Seq<char>>,
) -> Result<Option<Option<Seq<char>>>, Seq<char>> {
    if !caller_is_admin {
        Err("CREATE USER requires GOD or ADMIN role"@)
    } else if is_root_name(username) {
        Err("Username 'root' is reserved for the built-in superuser"@)
    } else if exists {
        if if_not_exists {
            Ok(None)
        } else {
            Err(user_detail(username, " already exists"@))
        }
    } else {
        match role {
            None => Ok(Some(None)),
            Some(r) => if assignable_role(uppercase_of(r)) {
                Ok(Some(Some(uppercase_of(r))))
            } else {
                Err("Role cannot be assigned; valid roles are ADMIN, DBA, USER, and GUEST"@)
            },
        }
    }
}

/// Decides CREATE USER: only GOD or ADMIN may create users, `root` (in any
/// case) is reserved, an existing user is an error unless IF NOT EXISTS, and
/// a given role must be assignable. Every error is an `InvalidOperation`.
pub fn create_user_decision(
    caller_is_admin: bool,
    username: &str,
    if_not_exists: bool,
    exists: bool,
    role: Option<&str>,
) -> (r: Result<CreateUserAction, ExecutionError>)
    ensures
        match (r, create_user_outcome(caller_is_admin, username@, if_not_exists, exists, match role {
            Some(x) => Some(x@),
            None => None,
        })) {
            (Ok(CreateUserAction::Skip), Ok(None)) => true,
            (Ok(CreateUserAction::Create { role: None }), Ok(Some(None))) => true,
            (Ok(CreateUserAction::Create { role: Some(n) }), Ok(Some(Some(m)))) => n@ == m,
            (Err(e), Err(d)) => e.spec_kind() == ErrorKind::InvalidOperation && e.spec_detail()
                == d,
            _ => false,
        },
{
    if !caller_is_admin {
        return Err(invalid("CREATE USER requires GOD or ADMIN role"));
    }
    if is_root_username(username) {
        return Err(invalid("Username 'root' is reserved for the built-in superuser"));
    }
    if exists {
        if if_not_exists {
            return Ok(CreateUserAction::Skip);
        }
        return Err(user_error(username, " already exists"));
    }
    match role {
        None => Ok(CreateUserAction::Create { role: None }),
        Some(r) => match validate_and_normalize_assignable_role(r) {
            Ok(n) => Ok(CreateUserAction::Create { role: Some(n) }),
            Err(e) => Err(e),
        },
    }
}

/// What DROP USER goes on to do.
#[derive(Debug, Clone, Copy, PartialEq, Eq, Structural)]
pub enum DropUserAction {
    /// The user is absent and IF EXISTS was given.
    AlreadyDropped,
    /// Delete the stored user.
    Delete,
}

/// Decides DROP USER: only GOD or ADMIN may drop users, `root` cannot be
/// dropped, and a missing user is an error unless IF EXISTS.
pub fn drop_user_decision(caller_is_admin: bool, username: &str, if_exists: bool, exists: bool) -> (r:
    Result<DropUserAction, ExecutionError>)
    ensures
        !caller_is_admin ==> fails_with(r, ErrorKind::InvalidOperation, "DROP USER requires GOD or ADMIN role"@),
        caller_is_admin && is_root_name(username@) ==> fails_with(r, ErrorKind::InvalidOperation, "Cannot delete the root user"@),
        caller_is_admin && !is_root_name(username@) && !exists && !if_exists ==> fails_with(r, ErrorKind::InvalidOperation, user_detail(
            username@,
            " not found"@,
        )),
        caller_is_admin && !is_root_name(username@) && !exists && if_exists ==> r == Ok::<
            DropUserAction,
            ExecutionError,
        >(DropUserAction::AlreadyDropped),
        caller_is_admin && !is_root_name(username@) && exists ==> r == Ok::<
            DropUserAction,
            ExecutionError,
        >(DropUserAction::Delete),
{
    if !caller_is_admin {
        return Err(invalid("DROP USER requires GOD or ADMIN role"));
    }
    if is_root_username(username) {
        return Err(invalid("Cannot delete the root user"));
    }
    if !exists {
        if if_exists {
            return Ok(DropUserAction::AlreadyDropped);
        }
        return Err(user_error(username, " not found"));
    }
    Ok(DropUserAction::Delete)
}

/// Decides whether ALTER USER may go on: only GOD or ADMIN may alter users,
/// the root password is not stored, and the user must exist.
pub fn alter_user_decision(caller_is_admin: bool, username: &str, exists: bool) -> (r: Result<
    (),
    ExecutionError,
>)
    ensures
        !caller_is_admin ==> fails_with(r, ErrorKind::InvalidOperation, "ALTER USER requires GOD or ADMIN role"@),
        caller_is_admin && is_root_name(username@) ==> fails_with(r, ErrorKind::InvalidOperation, "Root password is managed by process configuration"@),
        caller_is_admin && !is_root_name(username@) && !exists ==> fails_with(r, ErrorKind::InvalidOperation, user_detail(
            username@,
            " not found"@,
        )),
        caller_is_admin && !is_root_name(username@) && exists ==> r is Ok,
{
    if !caller_is_admin {
        return Err(invalid("ALTER USER requires GOD or ADMIN role"));
    }
    if is_root_username(username) {
        return Err(invalid("Root password is managed by process configuration"));
    }
    if !exists {
        return Err(user_error(username, " not found"));
    }
    Ok(())
}

/// Decides GRANT ROLE: only GOD or ADMIN may grant, the user must exist, and
/// the role must be assignable. Returns the normalised role to add.
pub fn grant_decision(caller_is_admin: bool, username: &str, exists: bool, role: &str) -> (r: Result<
    String,
    ExecutionError,
>)
    ensures
        !caller_is_admin ==> fails_with(r, ErrorKind::InvalidOperation, "GRANT requires GOD or ADMIN role"@),
        caller_is_admin && !exists ==> fails_with(r, ErrorKind::InvalidOperation, user_detail(
            username@,
            " does not exist"@,
        )),
        caller_is_admin && exists ==> match r {
            Ok(s) => s@ == uppercase_of(role@) && assignable_role(s@),
            Err(e) => !assignable_role(uppercase_of(role@)) && e.spec_kind()
                == ErrorKind::InvalidOperation && e.spec_detail()
                == "Role cannot be assigned; valid roles are ADMIN, DBA, USER, and GUEST"@,
        },
{
    if !caller_is_admin {
        return Err(invalid("GRANT requires GOD or ADMIN role"));
    }
    if !exists {
        return Err(user_error(username, " does not exist"));
    }
    validate_and_normalize_assignable_role(role)
}

/// Decides REVOKE ROLE: only GOD or ADMIN may revoke, the user must exist,
/// and the role must be one of the five role names. Returns the normalised
/// role to remove.
pub fn revoke_decision(caller_is_admin: bool, username: &str, exists: bool, role: &str) -> (r:
    Result<String, ExecutionError>)
    ensures
        !caller_is_admin ==> fails_with(r, ErrorKind::InvalidOperation, "REVOKE requires GOD or ADMIN role"@),
        caller_is_admin && !exists ==> fails_with(r, ErrorKind::InvalidOperation, user_detail(
            username@,
            " not found"@,
        )),
        caller_is_admin && exists ==> match r {
            Ok(s) => s@ == uppercase_of(role@) && revocable_role(s@),
            Err(e) => !revocable_role(uppercase_of(role@)) && e.spec_kind()
                == ErrorKind::InvalidOperation && e.spec_detail()
                == "Role cannot be revoked; valid roles are GOD, ADMIN, DBA, USER, and GUEST"@,
        },
{
    if !caller_is_admin {
        return Err(invalid("REVOKE requires GOD or ADMIN role"));
    }
    if !exists {
        return Err(user_error(username, " not found"));
    }
    validate_and_normalize_revocable_role(role)
}

/// The BALANCE sub-commands.
#[derive(Debug, Clone, Copy, PartialEq, Eq, Structural)]
pub enum BalancePlan {
    Leader,
    Data,
    Status,
    Stop,
    Reset,
}

pub open spec fn balance_name(plan: BalancePlan) -> Seq<char> {
    match plan {
        BalancePlan::Leader => "LEADER"@,
        BalancePlan::Data => "DATA"@,
        BalancePlan::Status => "STATUS"@,
        BalancePlan::Stop => "STOP"@,
        BalancePlan::Reset => "RESET"@,
    }
}

/// BALANCE always fails: no balance-job control is wired to the executor.
pub fn execute_balance(plan: BalancePlan) -> (e: ExecutionError)
    ensures
        e.spec_kind() == ErrorKind::InvalidOperation,
        e.spec_detail() == "BALANCE "@ + balance_name(plan)
            + " is not supported: no balance-job control RPC is wired to the executor"@,
{
    let operation = match plan {
        BalancePlan::Leader => "LEADER",
        BalancePlan::Data => "DATA",
        BalancePlan::Status => "STATUS",
        BalancePlan::Stop => "STOP",
        BalancePlan::Reset => "RESET",
    };
    let mut detail = String::from_str("BALANCE ");
    detail.append(operation);
    detail.append(" is not supported: no balance-job control RPC is wired to the executor");
    make_error(ErrorKind::InvalidOperation, detail)
}

} // verus!
