//! List-membership matching.
//!
//! A user, host, runas or command list is scanned left to right; `ALL`
//! matches unconditionally, an alias reference expands to the referenced
//! definition's member list, and each element's polarity sets or clears a
//! running membership flag, so the last element that matches determines
//! membership. Alias references resolve only backwards through a
//! sanitized table: a reference that is undefined, or not yet placed,
//! matches nothing.

use crate::alias::{bytes_eq, distinct_names};
use crate::ast::{Command, Def, Meta, Qualified, Spec, UserSpecifier};
use crate::glob::{glob_match, glob_matches};
use vstd::prelude::*;

verus! {

/// The identity the engine is asked about: the facts it may consult are
/// the account name, the numeric user id, and the names and numeric ids
/// of the groups the account belongs to. The superuser is user id 0.
#[derive(Clone, Debug, PartialEq, Eq)]
pub struct UserRecord {
    pub name: Vec<u8>,
    pub uid: u32,
    pub groups: Vec<Vec<u8>>,
    pub gids: Vec<u32>,
}

/// A group identity: a numeric id and, when known, a name.
#[derive(Clone, Debug, PartialEq, Eq)]
pub struct GroupRecord {
    pub gid: u32,
    pub name: Option<Vec<u8>>,
}

/// Does the user belong to the group called `g`?
pub open spec fn in_group_name(u: UserRecord, g: Seq<u8>) -> bool {
    exists|k: int| 0 <= k < u.groups@.len() && u.groups@[k]@ == g
}

/// Does the user belong to the group with id `gid`?
pub open spec fn in_group_gid(u: UserRecord, gid: u32) -> bool {
    exists|k: int| 0 <= k < u.gids@.len() && u.gids@[k] == gid
}

/// Is `g` one of the user's own groups (by id or by name)?
pub open spec fn group_of_user(u: UserRecord, g: GroupRecord) -> bool {
    in_group_gid(u, g.gid) || match g.name {
        Some(n) => in_group_name(u, n@),
        None => false,
    }
}

/// Does one user/group specifier apply to the user?
pub open spec fn user_spec_matches(u: UserRecord, s: UserSpecifier) -> bool {
    match s {
        UserSpecifier::User(n) => u.name@ == n@,
        UserSpecifier::Group(g) => in_group_name(u, g@),
        UserSpecifier::UserId(id) => u.uid == id,
        UserSpecifier::GroupId(gid) => in_group_gid(u, gid),
    }
}

/// Does one user/group specifier, read as a group constraint, apply to
/// the group? Names constrain the group's name, numbers its id.
pub open spec fn group_spec_matches(g: GroupRecord, s: UserSpecifier) -> bool {
    match s {
        UserSpecifier::User(n) => g.name matches Some(nm) && nm@ == n@,
        UserSpecifier::Group(n) => g.name matches Some(nm) && nm@ == n@,
        UserSpecifier::UserId(id) => g.gid == id,
        UserSpecifier::GroupId(id) => g.gid == id,
    }
}

/// Does a host specifier (a literal host name) apply to the host?
pub open spec fn host_spec_matches(h: Seq<u8>, pat: Vec<u8>) -> bool {
    pat@ == h
}

/// Does a command pattern apply to the requested command and arguments?
/// A pattern without an argument glob accepts any arguments; an explicit
/// empty argument glob accepts only the empty argument string.
pub open spec fn command_spec_matches(c: Command, cmd: Seq<u8>, args: Seq<u8>) -> bool {
    glob_matches(c.pattern@, cmd) && match c.arguments {
        None => true,
        Some(p) => glob_matches(p@, args),
    }
}

/// The meta-qualifier inside a list element, polarity stripped.
pub open spec fn inner_meta<T>(s: Spec<T>) -> Meta<T> {
    match s {
        Qualified::Allow(m) => m,
        Qualified::Forbid(m) => m,
    }
}

/// Is the list element an allowing assertion?
pub open spec fn is_allow_spec<T>(s: Spec<T>) -> bool {
    s is Allow
}

/// The name an alias meta-qualifier refers to.
pub open spec fn alias_name<T>(m: Meta<T>) -> Seq<u8> {
    match m {
        Meta::Alias(n) => n@,
        _ => arbitrary(),
    }
}

/// Is `name` the name of some definition of `t`?
pub open spec fn defined_in<T>(t: Seq<Def<T>>, name: Seq<u8>) -> bool {
    exists|j: int| 0 <= j < t.len() && t[j].0@ == name
}

/// The index of the definition called `name`; meaningful only when the
/// name is defined and the table's names are distinct.
pub open spec fn index_of<T>(t: Seq<Def<T>>, name: Seq<u8>) -> int {
    choose|j: int| 0 <= j < t.len() && t[j].0@ == name
}

pub proof fn lemma_index_of<T>(t: Seq<Def<T>>, name: Seq<u8>, j: int)
    requires
        distinct_names(t),
        0 <= j < t.len(),
        t[j].0@ == name,
    ensures
        defined_in(t, name),
        index_of(t, name) == j,
{
    assert(defined_in(t, name));
    let j2 = index_of(t, name);
    assert(0 <= j2 < t.len() && t[j2].0@ == name);
    if j2 < j {
        assert(t[j2].0@ != t[j].0@);
    } else if j < j2 {
        assert(t[j].0@ != t[j2].0@);
    }
}

/// Within table `t`, does the list element `m` of definition `i` point
/// only backwards: if it is a reference to a defined name, that name's
/// definition stands before `i`?
pub open spec fn resolved_member<T>(t: Seq<Def<T>>, i: int, m: Spec<T>) -> bool {
    match inner_meta(m) {
        Meta::Alias(nm) => defined_in(t, nm@) ==> 0 <= index_of(t, nm@) < i,
        _ => true,
    }
}

/// A fully sanitized table: every reference to a defined name resolves
/// to an earlier definition, so no defined alias is ever cut off by the
/// evaluation bound.
pub open spec fn table_resolved<T>(t: Seq<Def<T>>) -> bool {
    forall|i: int, k: int|
        0 <= i < t.len() && 0 <= k < t[i].1@.len() ==> resolved_member(
            t,
            i,
            #[trigger] t[i].1@[k],
        )
}

/// Does the meta-qualifier `m` apply to user `u`? An alias reference
/// expands to its definition's member list, provided the definition
/// stands before `bound` in the table.
pub open spec fn user_hit(
    t: Seq<Def<UserSpecifier>>,
    m: Meta<UserSpecifier>,
    bound: int,
    u: UserRecord,
) -> bool
    decreases bound, 0int, 1int,
{
    match m {
        Meta::All => true,
        Meta::Only(s) => user_spec_matches(u, s),
        Meta::Alias(nm) => {
            if defined_in(t, nm@) && 0 <= index_of(t, nm@) < bound {
                user_member(t, t[index_of(t, nm@)].1@, index_of(t, nm@), u)
            } else {
                false
            }
        },
    }
}

/// Membership of user `u` in the list `l`: the polarity of the last
/// element that applies, or `false` when none applies.
pub open spec fn user_member(
    t: Seq<Def<UserSpecifier>>,
    l: Seq<Spec<UserSpecifier>>,
    bound: int,
    u: UserRecord,
) -> bool
    decreases bound, l.len(), 0int,
{
    if l.len() == 0 {
        false
    } else if user_hit(t, inner_meta(l.last()), bound, u) {
        is_allow_spec(l.last())
    } else {
        user_member(t, l.drop_last(), bound, u)
    }
}

/// As `user_hit`, for a group constraint.
pub open spec fn group_hit(
    t: Seq<Def<UserSpecifier>>,
    m: Meta<UserSpecifier>,
    bound: int,
    g: GroupRecord,
) -> bool
    decreases bound, 0int, 1int,
{
    match m {
        Meta::All => true,
        Meta::Only(s) => group_spec_matches(g, s),
        Meta::Alias(nm) => {
            if defined_in(t, nm@) && 0 <= index_of(t, nm@) < bound {
                group_member(t, t[index_of(t, nm@)].1@, index_of(t, nm@), g)
            } else {
                false
            }
        },
    }
}

/// As `user_member`, for a group constraint.
pub open spec fn group_member(
    t: Seq<Def<UserSpecifier>>,
    l: Seq<Spec<UserSpecifier>>,
    bound: int,
    g: GroupRecord,
) -> bool
    decreases bound, l.len(), 0int,
{
    if l.len() == 0 {
        false
    } else if group_hit(t, inner_meta(l.last()), bound, g) {
        is_allow_spec(l.last())
    } else {
        group_member(t, l.drop_last(), bound, g)
    }
}

/// As `user_hit`, for a host.
pub open spec fn host_hit(t: Seq<Def<Vec<u8>>>, m: Meta<Vec<u8>>, bound: int, h: Seq<u8>) -> bool
    decreases bound, 0int, 1int,
{
    match m {
        Meta::All => true,
        Meta::Only(pat) => host_spec_matches(h, pat),
        Meta::Alias(nm) => {
            if defined_in(t, nm@) && 0 <= index_of(t, nm@) < bound {
                host_member(t, t[index_of(t, nm@)].1@, index_of(t, nm@), h)
            } else {
                false
            }
        },
    }
}

/// As `user_member`, for a host.
pub open spec fn host_member(
    t: Seq<Def<Vec<u8>>>,
    l: Seq<Spec<Vec<u8>>>,
    bound: int,
    h: Seq<u8>,
) -> bool
    decreases bound, l.len(), 0int,
{
    if l.len() == 0 {
        false
    } else if host_hit(t, inner_meta(l.last()), bound, h) {
        is_allow_spec(l.last())
    } else {
        host_member(t, l.drop_last(), bound, h)
    }
}

/// As `user_hit`, for a command with arguments.
pub open spec fn cmnd_hit(
    t: Seq<Def<Command>>,
    m: Meta<Command>,
    bound: int,
    cmd: Seq<u8>,
    args: Seq<u8>,
) -> bool
    decreases bound, 0int, 1int,
{
    match m {
        Meta::All => true,
        Meta::Only(c) => command_spec_matches(c, cmd, args),
        Meta::Alias(nm) => {
            if defined_in(t, nm@) && 0 <= index_of(t, nm@) < bound {
                cmnd_member(t, t[index_of(t, nm@)].1@, index_of(t, nm@), cmd, args)
            } else {
                false
            }
        },
    }
}

/// As `user_member`, for a command with arguments.
pub open spec fn cmnd_member(
    t: Seq<Def<Command>>,
    l: Seq<Spec<Command>>,
    bound: int,
    cmd: Seq<u8>,
    args: Seq<u8>,
) -> bool
    decreases bound, l.len(), 0int,
{
    if l.len() == 0 {
        false
    } else if cmnd_hit(t, inner_meta(l.last()), bound, cmd, args) {
        is_allow_spec(l.last())
    } else {
        cmnd_member(t, l.drop_last(), bound, cmd, args)
    }
}

/// Find a definition by name: some index carrying the name, or `None`
/// when the name is undefined.
pub fn lookup<T>(t: &Vec<Def<T>>, name: &Vec<u8>) -> (r: Option<usize>)
    ensures
        match r {
            Some(j) => (j as int) < t@.len() && t@[j as int].0@ == name@,
            None => !defined_in(t@, name@),
        },
{
    let mut j: usize = 0;
    while j < t.len()
        invariant
            j <= t.len(),
            forall|jj: int| 0 <= jj < j ==> t@[jj].0@ != name@,
        decreases t.len() - j,
    {
        if bytes_eq(&t[j].0, name) {
            return Some(j);
        }
        j += 1;
    }
    None
}

/// Does the user have this account name?
pub fn user_has_name(u: &UserRecord, name: &Vec<u8>) -> (r: bool)
    ensures
        r == (u.name@ == name@),
{
    bytes_eq(&u.name, name)
}

/// Does the user belong to the group called `g`?
pub fn user_in_group_name(u: &UserRecord, g: &Vec<u8>) -> (r: bool)
    ensures
        r == in_group_name(*u, g@),
{
    let mut k: usize = 0;
    while k < u.groups.len()
        invariant
            k <= u.groups.len(),
            forall|kk: int| 0 <= kk < k ==> u.groups@[kk]@ != g@,
        decreases u.groups.len() - k,
    {
        if bytes_eq(&u.groups[k], g) {
            return true;
        }
        k += 1;
    }
    false
}

/// Does the user belong to the group with id `gid`?
pub fn user_in_group_gid(u: &UserRecord, gid: u32) -> (r: bool)
    ensures
        r == in_group_gid(*u, gid),
{
    let mut k: usize = 0;
    while k < u.gids.len()
        invariant
            k <= u.gids.len(),
            forall|kk: int| 0 <= kk < k ==> u.gids@[kk] != gid,
        decreases u.gids.len() - k,
    {
        if u.gids[k] == gid {
            return true;
        }
        k += 1;
    }
    false
}

/// Is `g` one of the user's own groups?
pub fn user_owns_group(u: &UserRecord, g: &GroupRecord) -> (r: bool)
    ensures
        r == group_of_user(*u, *g),
{
    if user_in_group_gid(u, g.gid) {
        return true;
    }
    match &g.name {
        Some(n) => user_in_group_name(u, n),
        None => false,
    }
}

/// Does one user/group specifier apply to the user?
fn match_user_spec(s: &UserSpecifier, u: &UserRecord) -> (r: bool)
    ensures
        r == user_spec_matches(*u, *s),
{
    match s {
        UserSpecifier::User(n) => user_has_name(u, n),
        UserSpecifier::Group(g) => user_in_group_name(u, g),
        UserSpecifier::UserId(id) => u.uid == *id,
        UserSpecifier::GroupId(gid) => user_in_group_gid(u, *gid),
    }
}

/// Does one user/group specifier, read as a group constraint, apply?
fn match_group_spec(s: &UserSpecifier, g: &GroupRecord) -> (r: bool)
    ensures
        r == group_spec_matches(*g, *s),
{
    match s {
        UserSpecifier::User(n) => match &g.name {
            Some(nm) => bytes_eq(nm, n),
            None => false,
        },
        UserSpecifier::Group(n) => match &g.name {
            Some(nm) => bytes_eq(nm, n),
            None => false,
        },
        UserSpecifier::UserId(id) => g.gid == *id,
        UserSpecifier::GroupId(id) => g.gid == *id,
    }
}

/// Does the meta-qualifier apply to the user?
fn match_user_meta(
    t: &Vec<Def<UserSpecifier>>,
    m: &Meta<UserSpecifier>,
    bound: usize,
    u: &UserRecord,
) -> (r: bool)
    requires
        distinct_names(t@),
        bound <= t@.len(),
    ensures
        r == user_hit(t@, *m, bound as int, *u),
    decreases bound as int, 0int, 1int,
{
    match m {
        Meta::All => true,
        Meta::Only(s) => match_user_spec(s, u),
        Meta::Alias(nm) => match lookup(t, nm) {
            Some(j) => {
                proof {
                    lemma_index_of(t@, nm@, j as int);
                }
                if j < bound {
                    match_user_list(t, &t[j].1, j, u)
                } else {
                    false
                }
            },
            None => false,
        },
    }
}

/// Membership of the user in the list, alias references expanding to
/// definitions placed before `bound`.
pub fn match_user_list(
    t: &Vec<Def<UserSpecifier>>,
    l: &Vec<Spec<UserSpecifier>>,
    bound: usize,
    u: &UserRecord,
) -> (r: bool)
    requires
        distinct_names(t@),
        bound <= t@.len(),
    ensures
        r == user_member(t@, l@, bound as int, *u),
    decreases bound as int, l@.len(), 2int,
{
    let mut flag = false;
    let mut i: usize = 0;
    proof {
        assert(l@.take(0) =~= Seq::<Spec<UserSpecifier>>::empty());
    }
    while i < l.len()
        invariant
            i <= l.len(),
            distinct_names(t@),
            bound <= t@.len(),
            flag == user_member(t@, l@.take(i as int), bound as int, *u),
        decreases l@.len() - i,
    {
        let hit = match &l[i] {
            Qualified::Allow(m) => match_user_meta(t, m, bound, u),
            Qualified::Forbid(m) => match_user_meta(t, m, bound, u),
        };
        proof {
            assert(l@.take(i as int + 1).last() == l@[i as int]);
            assert(l@.take(i as int + 1).drop_last() =~= l@.take(i as int));
            assert(hit == user_hit(t@, inner_meta(l@[i as int]), bound as int, *u));
        }
        if hit {
            flag = l[i].is_allow();
        }
        i += 1;
    }
    proof {
        assert(l@.take(l@.len() as int) =~= l@);
    }
    flag
}

/// Does the meta-qualifier, read as a group constraint, apply?
fn match_group_meta(
    t: &Vec<Def<UserSpecifier>>,
    m: &Meta<UserSpecifier>,
    bound: usize,
    g: &GroupRecord,
) -> (r: bool)
    requires
        distinct_names(t@),
        bound <= t@.len(),
    ensures
        r == group_hit(t@, *m, bound as int, *g),
    decreases bound as int, 0int, 1int,
{
    match m {
        Meta::All => true,
        Meta::Only(s) => match_group_spec(s, g),
        Meta::Alias(nm) => match lookup(t, nm) {
            Some(j) => {
                proof {
                    lemma_index_of(t@, nm@, j as int);
                }
                if j < bound {
                    match_group_list(t, &t[j].1, j, g)
                } else {
                    false
                }
            },
            None => false,
        },
    }
}

/// Membership of the group in the list.
pub fn match_group_list(
    t: &Vec<Def<UserSpecifier>>,
    l: &Vec<Spec<UserSpecifier>>,
    bound: usize,
    g: &GroupRecord,
) -> (r: bool)
    requires
        distinct_names(t@),
        bound <= t@.len(),
    ensures
        r == group_member(t@, l@, bound as int, *g),
    decreases bound as int, l@.len(), 2int,
{
    let mut flag = false;
    let mut i: usize = 0;
    proof {
        assert(l@.take(0) =~= Seq::<Spec<UserSpecifier>>::empty());
    }
    while i < l.len()
        invariant
            i <= l.len(),
            distinct_names(t@),
            bound <= t@.len(),
            flag == group_member(t@, l@.take(i as int), bound as int, *g),
        decreases l@.len() - i,
    {
        let hit = match &l[i] {
            Qualified::Allow(m) => match_group_meta(t, m, bound, g),
            Qualified::Forbid(m) => match_group_meta(t, m, bound, g),
        };
        proof {
            assert(l@.take(i as int + 1).last() == l@[i as int]);
            assert(l@.take(i as int + 1).drop_last() =~= l@.take(i as int));
            assert(hit == group_hit(t@, inner_meta(l@[i as int]), bound as int, *g));
        }
        if hit {
            flag = l[i].is_allow();
        }
        i += 1;
    }
    proof {
        assert(l@.take(l@.len() as int) =~= l@);
    }
    flag
}

/// Does the meta-qualifier apply to the host?
fn match_host_meta(t: &Vec<Def<Vec<u8>>>, m: &Meta<Vec<u8>>, bound: usize, h: &Vec<u8>) -> (r: bool)
    requires
        distinct_names(t@),
        bound <= t@.len(),
    ensures
        r == host_hit(t@, *m, bound as int, h@),
    decreases bound as int, 0int, 1int,
{
    match m {
        Meta::All => true,
        Meta::Only(pat) => bytes_eq(pat, h),
        Meta::Alias(nm) => match lookup(t, nm) {
            Some(j) => {
                proof {
                    lemma_index_of(t@, nm@, j as int);
                }
                if j < bound {
                    match_host_list(t, &t[j].1, j, h)
                } else {
                    false
                }
            },
            None => false,
        },
    }
}

/// Membership of the host in the list.
pub fn match_host_list(
    t: &Vec<Def<Vec<u8>>>,
    l: &Vec<Spec<Vec<u8>>>,
    bound: usize,
    h: &Vec<u8>,
) -> (r: bool)
    requires
        distinct_names(t@),
        bound <= t@.len(),
    ensures
        r == host_member(t@, l@, bound as int, h@),
    decreases bound as int, l@.len(), 2int,
{
    let mut flag = false;
    let mut i: usize = 0;
    proof {
        assert(l@.take(0) =~= Seq::<Spec<Vec<u8>>>::empty());
    }
    while i < l.len()
        invariant
            i <= l.len(),
            distinct_names(t@),
            bound <= t@.len(),
            flag == host_member(t@, l@.take(i as int), bound as int, h@),
        decreases l@.len() - i,
    {
        let hit = match &l[i] {
            Qualified::Allow(m) => match_host_meta(t, m, bound, h),
            Qualified::Forbid(m) => match_host_meta(t, m, bound, h),
        };
        proof {
            assert(l@.take(i as int + 1).last() == l@[i as int]);
            assert(l@.take(i as int + 1).drop_last() =~= l@.take(i as int));
            assert(hit == host_hit(t@, inner_meta(l@[i as int]), bound as int, h@));
        }
        if hit {
            flag = l[i].is_allow();
        }
        i += 1;
    }
    proof {
        assert(l@.take(l@.len() as int) =~= l@);
    }
    flag
}

/// Does one command pattern apply to the requested command?
fn match_command(c: &Command, cmd: &Vec<u8>, args: &Vec<u8>) -> (r: bool)
    ensures
        r == command_spec_matches(*c, cmd@, args@),
{
    if !glob_match(&c.pattern, cmd) {
        return false;
    }
    match &c.arguments {
        None => true,
        Some(p) => glob_match(p, args),
    }
}

/// Does the meta-qualifier apply to the requested command?
pub(crate) fn match_cmnd_meta(
    t: &Vec<Def<Command>>,
    m: &Meta<Command>,
    bound: usize,
    cmd: &Vec<u8>,
    args: &Vec<u8>,
) -> (r: bool)
    requires
        distinct_names(t@),
        bound <= t@.len(),
    ensures
        r == cmnd_hit(t@, *m, bound as int, cmd@, args@),
    decreases bound as int, 0int, 1int,
{
    match m {
        Meta::All => true,
        Meta::Only(c) => match_command(c, cmd, args),
        Meta::Alias(nm) => match lookup(t, nm) {
            Some(j) => {
                proof {
                    lemma_index_of(t@, nm@, j as int);
                }
                if j < bound {
                    match_cmnd_list(t, &t[j].1, j, cmd, args)
                } else {
                    false
                }
            },
            None => false,
        },
    }
}

/// Membership of the requested command in the list.
pub fn match_cmnd_list(
    t: &Vec<Def<Command>>,
    l: &Vec<Spec<Command>>,
    bound: usize,
    cmd: &Vec<u8>,
    args: &Vec<u8>,
) -> (r: bool)
    requires
        distinct_names(t@),
        bound <= t@.len(),
    ensures
        r == cmnd_member(t@, l@, bound as int, cmd@, args@),
    decreases bound as int, l@.len(), 2int,
{
    let mut flag = false;
    let mut i: usize = 0;
    proof {
        assert(l@.take(0) =~= Seq::<Spec<Command>>::empty());
    }
    while i < l.len()
        invariant
            i <= l.len(),
            distinct_names(t@),
            bound <= t@.len(),
            flag == cmnd_member(t@, l@.take(i as int), bound as int, cmd@, args@),
        decreases l@.len() - i,
    {
        let hit = match &l[i] {
            Qualified::Allow(m) => match_cmnd_meta(t, m, bound, cmd, args),
            Qualified::Forbid(m) => match_cmnd_meta(t, m, bound, cmd, args),
        };
        proof {
            assert(l@.take(i as int + 1).last() == l@[i as int]);
            assert(l@.take(i as int + 1).drop_last() =~= l@.take(i as int));
            assert(hit == cmnd_hit(t@, inner_meta(l@[i as int]), bound as int, cmd@, args@));
        }
        if hit {
            flag = l[i].is_allow();
        }
        i += 1;
    }
    proof {
        assert(l@.take(l@.len() as int) =~= l@);
    }
    flag
}

/// This meta-qualifier applies to the user exactly when the member list
/// of the alias it names does: referencing an alias is equivalent to
/// writing its member list in place.
pub proof fn lemma_alias_membership(
    t: Seq<Def<UserSpecifier>>,
    m: Meta<UserSpecifier>,
    bound: int,
    u: UserRecord,
)
    requires
        m is Alias,
        defined_in(t, alias_name(m)),
        0 <= index_of(t, alias_name(m)) < bound,
    ensures
        user_hit(t, m, bound, u) == user_member(
            t,
            t[index_of(t, alias_name(m))].1@,
            index_of(t, alias_name(m)),
            u,
        ),
{
}

/// A one-element user list holding an allowing alias reference admits
/// exactly the members of the referenced definition: the user belongs to
/// the list if and only if it belongs to the definition's member list.
pub proof fn lemma_alias_list_equivalence(
    t: Seq<Def<UserSpecifier>>,
    l: Seq<Spec<UserSpecifier>>,
    bound: int,
    u: UserRecord,
)
    requires
        l.len() == 1,
        is_allow_spec(l[0]),
        inner_meta(l[0]) is Alias,
        defined_in(t, alias_name(inner_meta(l[0]))),
        0 <= index_of(t, alias_name(inner_meta(l[0]))) < bound,
    ensures
        user_member(t, l, bound, u) == user_member(
            t,
            t[index_of(t, alias_name(inner_meta(l[0])))].1@,
            index_of(t, alias_name(inner_meta(l[0]))),
            u,
        ),
{
    assert(l.last() == l[0]);
    assert(l.drop_last().len() == 0);
    assert(user_member(t, l.drop_last(), bound, u) == false);
    lemma_alias_membership(t, inner_meta(l[0]), bound, u);
    let j = index_of(t, alias_name(inner_meta(l[0])));
    if user_hit(t, inner_meta(l[0]), bound, u) {
        assert(user_member(t, l, bound, u) == is_allow_spec(l[0]));
        assert(user_member(t, t[j].1@, j, u));
    } else {
        assert(user_member(t, l, bound, u) == false);
        assert(!user_member(t, t[j].1@, j, u));
    }
}

/// The specifier inside a literal meta-qualifier.
pub open spec fn only_spec(m: Meta<UserSpecifier>) -> UserSpecifier {
    match m {
        Meta::Only(s) => s,
        _ => arbitrary(),
    }
}

/// Excluding one member from an `ALL` list removes exactly that member
/// and preserves the rest: against the two-element list `ALL, !x` a user
/// is a member if and only if `x` does not apply to it.
pub proof fn lemma_excluded_member(
    t: Seq<Def<UserSpecifier>>,
    l: Seq<Spec<UserSpecifier>>,
    bound: int,
    u: UserRecord,
)
    requires
        l.len() == 2,
        is_allow_spec(l[0]),
        inner_meta(l[0]) is All,
        !is_allow_spec(l[1]),
        inner_meta(l[1]) is Only,
    ensures
        user_member(t, l, bound, u) == !user_spec_matches(u, only_spec(inner_meta(l[1]))),
{
    assert(l.last() == l[1]);
    let d = l.drop_last();
    assert(d.len() == 1);
    assert(d.last() == l[0]);
    assert(user_hit(t, inner_meta(l[0]), bound, u));
    assert(user_member(t, d, bound, u) == is_allow_spec(l[0]));
    assert(user_hit(t, inner_meta(l[1]), bound, u) == user_spec_matches(
        u,
        only_spec(inner_meta(l[1])),
    ));
}

} // verus!
