//! The matching engine.
//!
//! `check_permission` evaluates an authorization request against the
//! parsed, alias-resolved rule set in a single left-to-right pass: every
//! applicable rule overwrites the running decision, so the last
//! applicable rule decides, even flipping an earlier allow back to a
//! denial. A present command digest is presumed externally verified: the
//! caller must hash the candidate executable before acting on an allow.

use crate::alias::{bytes_eq, copy_bytes, distinct_names};
use crate::ast::{Command, CommandSpec, Def, PermissionRule, Qualified, RunasSpec, Settings, Tag,
    UserSpecifier};
use crate::eval::{
    alias_name, cmnd_hit, cmnd_member, defined_in, group_member, group_of_user, host_member,
    index_of, inner_meta, is_allow_spec, lemma_alias_list_equivalence, match_cmnd_meta,
    match_group_list, match_host_list, match_user_list, table_resolved, user_member,
    user_owns_group, GroupRecord, UserRecord,
};
use vstd::prelude::*;

verus! {

/// The per-kind alias tables, in the dependency-respecting order that
/// sanitization produced; an unusable kind is left empty.
pub struct AliasTable {
    pub user_aliases: Vec<Def<UserSpecifier>>,
    pub host_aliases: Vec<Def<Vec<u8>>>,
    pub cmnd_aliases: Vec<Def<Command>>,
    pub runas_aliases: Vec<Def<UserSpecifier>>,
}

impl AliasTable {
    /// No two definitions of one kind share a name.
    pub open spec fn sane(self) -> bool {
        &&& distinct_names(self.user_aliases@)
        &&& distinct_names(self.host_aliases@)
        &&& distinct_names(self.cmnd_aliases@)
        &&& distinct_names(self.runas_aliases@)
    }

    /// Every alias reference to a defined name, in any kind's table,
    /// resolves to an earlier entry of that table: what sanitization
    /// guarantees for a usable table.
    pub open spec fn resolved(self) -> bool {
        &&& table_resolved(self.user_aliases@)
        &&& table_resolved(self.host_aliases@)
        &&& table_resolved(self.cmnd_aliases@)
        &&& table_resolved(self.runas_aliases@)
    }

}

/// The frozen policy: the ordered rules, the sanitized alias tables and
/// the global settings, shared read-only by every permission check.
pub struct Sudoers {
    pub rules: Vec<PermissionRule>,
    pub aliases: AliasTable,
    pub settings: Settings,
}

/// One ephemeral authorization request: the identity to run as and the
/// command line to execute.
pub struct Request {
    pub user: UserRecord,
    pub group: GroupRecord,
    pub command: Vec<u8>,
    pub arguments: Vec<u8>,
}

/// A whitespace byte of an argument string.
pub open spec fn is_ws(b: u8) -> bool {
    b == 32 || b == 9
}

/// The argument string from position `i` on, with runs of whitespace
/// collapsed to single spaces and outer whitespace trimmed. `started`
/// records that a word was already emitted, `pending` that a separating
/// space is owed before the next word.
pub open spec fn norm_from(s: Seq<u8>, i: int, started: bool, pending: bool) -> Seq<u8>
    decreases s.len() - i,
{
    if i < 0 || i >= s.len() {
        Seq::empty()
    } else if is_ws(s[i]) {
        norm_from(s, i + 1, started, started)
    } else if pending {
        seq![32u8, s[i]] + norm_from(s, i + 1, true, false)
    } else {
        seq![s[i]] + norm_from(s, i + 1, true, false)
    }
}

/// An argument string with whitespace runs collapsed to single spaces.
pub open spec fn normalized(s: Seq<u8>) -> Seq<u8> {
    norm_from(s, 0, false, false)
}

/// Collapse runs of whitespace to single spaces and trim the ends.
pub fn normalize_args(s: &Vec<u8>) -> (r: Vec<u8>)
    ensures
        r@ == normalized(s@),
{
    let mut out: Vec<u8> = Vec::new();
    let mut started = false;
    let mut pending = false;
    let mut i: usize = 0;
    while i < s.len()
        invariant
            i <= s.len(),
            normalized(s@) == out@ + norm_from(s@, i as int, started, pending),
        decreases s.len() - i,
    {
        let b = s[i];
        if b == 32 || b == 9 {
            pending = started;
            proof {
                assert(norm_from(s@, i as int, started, pending) == norm_from(
                    s@,
                    i as int + 1,
                    started,
                    started,
                ));
            }
        } else {
            let ghost out_pre = out@;
            if pending {
                out.push(32);
            }
            out.push(b);
            proof {
                if pending {
                    assert(out@ =~= out_pre + seq![32u8, b]);
                    assert(out@ + norm_from(s@, i as int + 1, true, false) =~= out_pre + (seq![
                        32u8,
                        b,
                    ] + norm_from(s@, i as int + 1, true, false)));
                } else {
                    assert(out@ =~= out_pre + seq![b]);
                    assert(out@ + norm_from(s@, i as int + 1, true, false) =~= out_pre + (seq![b]
                        + norm_from(s@, i as int + 1, true, false)));
                }
            }
            started = true;
            pending = false;
        }
        i += 1;
    }
    proof {
        assert(norm_from(s@, i as int, started, pending) =~= Seq::<u8>::empty());
        assert(out@ + Seq::<u8>::empty() =~= out@);
    }
    out
}

/// Does the requested identity satisfy the rule's runas clause?
///
/// No clause at all permits only the superuser, running under one of its
/// own groups; `()` permits nothing; `(:G)` permits no user change and
/// constrains the group by `G`; a user list without a group list
/// constrains the group to one of the requested user's own.
pub open spec fn runas_ok(
    rt: Seq<Def<UserSpecifier>>,
    runas: Option<RunasSpec>,
    inv: UserRecord,
    ru: UserRecord,
    rg: GroupRecord,
) -> bool {
    match runas {
        None => ru.uid == 0 && group_of_user(ru, rg),
        Some(rs) => (match rs.users {
            Some(ul) => user_member(rt, ul@, rt.len() as int, ru),
            None => ru.name@ == inv.name@,
        }) && (match rs.groups {
            Some(gl) => group_member(rt, gl@, rt.len() as int, rg),
            None => group_of_user(ru, rg),
        }),
    }
}

/// The polarity and tags of the last command entry that matches the
/// requested command, or `None` when no entry matches.
pub open spec fn cmd_verdict(
    t: Seq<Def<Command>>,
    entries: Seq<CommandSpec>,
    cmd: Seq<u8>,
    args: Seq<u8>,
) -> Option<(bool, Seq<Tag>)>
    decreases entries.len(),
{
    if entries.len() == 0 {
        None
    } else if cmnd_hit(t, inner_meta(entries.last().command), t.len() as int, cmd, args) {
        Some((is_allow_spec(entries.last().command), entries.last().tags@))
    } else {
        cmd_verdict(t, entries.drop_last(), cmd, args)
    }
}

/// Do the invoking user, the host and the requested identity fall under
/// this rule?
pub open spec fn rule_applies(
    at: AliasTable,
    rule: PermissionRule,
    inv: UserRecord,
    host: Seq<u8>,
    req: Request,
) -> bool {
    &&& user_member(at.user_aliases@, rule.users@, at.user_aliases@.len() as int, inv)
    &&& host_member(at.host_aliases@, rule.hosts@, at.host_aliases@.len() as int, host)
    &&& runas_ok(at.runas_aliases@, rule.runas, inv, req.user, req.group)
}

/// What this rule says about the request: the polarity and tags of its
/// last matching command entry, or `None` when the rule does not apply.
pub open spec fn rule_verdict(
    at: AliasTable,
    rule: PermissionRule,
    inv: UserRecord,
    host: Seq<u8>,
    req: Request,
) -> Option<(bool, Seq<Tag>)> {
    if rule_applies(at, rule, inv, host, req) {
        cmd_verdict(
            at.cmnd_aliases@,
            rule.commands@,
            req.command@,
            normalized(req.arguments@),
        )
    } else {
        None
    }
}

/// The verdict of the last applicable rule, or `None` when none applies.
pub open spec fn rules_verdict(
    at: AliasTable,
    rules: Seq<PermissionRule>,
    inv: UserRecord,
    host: Seq<u8>,
    req: Request,
) -> Option<(bool, Seq<Tag>)>
    decreases rules.len(),
{
    if rules.len() == 0 {
        None
    } else {
        match rule_verdict(at, rules.last(), inv, host, req) {
            Some(v) => Some(v),
            None => rules_verdict(at, rules.drop_last(), inv, host, req),
        }
    }
}

/// The whole policy's answer: the tags in effect at the deciding entry
/// when the last applicable rule allows, `None` otherwise.
pub open spec fn spec_check_permission(
    s: Sudoers,
    inv: UserRecord,
    host: Seq<u8>,
    req: Request,
) -> Option<Seq<Tag>> {
    match rules_verdict(s.aliases, s.rules@, inv, host, req) {
        Some(v) => if v.0 {
            Some(v.1)
        } else {
            None
        },
        None => None,
    }
}

/// A copy of a tag list.
pub fn copy_tags(src: &Vec<Tag>) -> (r: Vec<Tag>)
    ensures
        r@ == src@,
{
    let mut out: Vec<Tag> = Vec::new();
    let mut i: usize = 0;
    while i < src.len()
        invariant
            i <= src.len(),
            out@.len() == i,
            forall|k: int| 0 <= k < i ==> out@[k] == src@[k],
        decreases src.len() - i,
    {
        out.push(src[i]);
        i += 1;
    }
    proof {
        assert(out@ =~= src@);
    }
    out
}

/// Evaluate one rule against the request.
fn check_rule(
    at: &AliasTable,
    rule: &PermissionRule,
    inv: &UserRecord,
    host: &Vec<u8>,
    req: &Request,
    args_n: &Vec<u8>,
) -> (v: Option<(bool, Vec<Tag>)>)
    requires
        at.sane(),
        args_n@ == normalized(req.arguments@),
    ensures
        match v {
            Some(p) => rule_verdict(*at, *rule, *inv, host@, *req) == Some((p.0, p.1@)),
            None => rule_verdict(*at, *rule, *inv, host@, *req) is None,
        },
{
    if !match_user_list(&at.user_aliases, &rule.users, at.user_aliases.len(), inv) {
        return None;
    }
    if !match_host_list(&at.host_aliases, &rule.hosts, at.host_aliases.len(), host) {
        return None;
    }
    let runas_fits = match &rule.runas {
        None => req.user.uid == 0 && user_owns_group(&req.user, &req.group),
        Some(rs) => {
            let user_fits = match &rs.users {
                Some(ul) => match_user_list(
                    &at.runas_aliases,
                    ul,
                    at.runas_aliases.len(),
                    &req.user,
                ),
                None => bytes_eq(&req.user.name, &inv.name),
            };
            let group_fits = match &rs.groups {
                Some(gl) => match_group_list(
                    &at.runas_aliases,
                    gl,
                    at.runas_aliases.len(),
                    &req.group,
                ),
                None => user_owns_group(&req.user, &req.group),
            };
            user_fits && group_fits
        },
    };
    if !runas_fits {
        return None;
    }
    assert(rule_applies(*at, *rule, *inv, host@, *req));

    let entries = &rule.commands;
    let mut best: Option<(bool, usize)> = None;
    let mut i: usize = 0;
    proof {
        assert(entries@.take(0) =~= Seq::<CommandSpec>::empty());
    }
    while i < entries.len()
        invariant
            i <= entries.len(),
            at.sane(),
            entries@ == rule.commands@,
            match best {
                None => cmd_verdict(at.cmnd_aliases@, entries@.take(i as int), req.command@, args_n@)
                    is None,
                Some(p) => p.1 < i && cmd_verdict(
                    at.cmnd_aliases@,
                    entries@.take(i as int),
                    req.command@,
                    args_n@,
                ) == Some((p.0, entries@[p.1 as int].tags@)),
            },
        decreases entries.len() - i,
    {
        let hit = match &entries[i].command {
            Qualified::Allow(m) => match_cmnd_meta(
                &at.cmnd_aliases,
                m,
                at.cmnd_aliases.len(),
                &req.command,
                args_n,
            ),
            Qualified::Forbid(m) => match_cmnd_meta(
                &at.cmnd_aliases,
                m,
                at.cmnd_aliases.len(),
                &req.command,
                args_n,
            ),
        };
        proof {
            assert(entries@.take(i as int + 1).last() == entries@[i as int]);
            assert(entries@.take(i as int + 1).drop_last() =~= entries@.take(i as int));
            assert(hit == cmnd_hit(
                at.cmnd_aliases@,
                inner_meta(entries@[i as int].command),
                at.cmnd_aliases@.len() as int,
                req.command@,
                args_n@,
            ));
        }
        if hit {
            best = Some((entries[i].command.is_allow(), i));
        }
        i += 1;
    }
    proof {
        assert(entries@.take(entries@.len() as int) =~= entries@);
    }
    match best {
        Some(p) => Some((p.0, copy_tags(&entries[p.1].tags))),
        None => None,
    }
}

/// Evaluate the request against the whole policy.
///
/// The result is `Some` of the tags in effect at the deciding command
/// entry when the last applicable rule allows the request, and `None`
/// when no rule allows it or the last applicable rule forbids it.
pub fn check_permission(
    sudoers: &Sudoers,
    am_user: &UserRecord,
    on_host: &Vec<u8>,
    request: &Request,
) -> (r: Option<Vec<Tag>>)
    requires
        sudoers.aliases.sane(),
    ensures
        match r {
            Some(tags) => spec_check_permission(*sudoers, *am_user, on_host@, *request) == Some(
                tags@,
            ),
            None => spec_check_permission(*sudoers, *am_user, on_host@, *request) is None,
        },
{
    let args_n = normalize_args(&request.arguments);
    let mut verdict: Option<(bool, Vec<Tag>)> = None;
    let mut i: usize = 0;
    proof {
        assert(sudoers.rules@.take(0) =~= Seq::<PermissionRule>::empty());
    }
    while i < sudoers.rules.len()
        invariant
            i <= sudoers.rules.len(),
            sudoers.aliases.sane(),
            args_n@ == normalized(request.arguments@),
            match verdict {
                None => rules_verdict(
                    sudoers.aliases,
                    sudoers.rules@.take(i as int),
                    *am_user,
                    on_host@,
                    *request,
                ) is None,
                Some(p) => rules_verdict(
                    sudoers.aliases,
                    sudoers.rules@.take(i as int),
                    *am_user,
                    on_host@,
                    *request,
                ) == Some((p.0, p.1@)),
            },
        decreases sudoers.rules.len() - i,
    {
        let v = check_rule(&sudoers.aliases, &sudoers.rules[i], am_user, on_host, request, &args_n);
        proof {
            assert(sudoers.rules@.take(i as int + 1).last() == sudoers.rules@[i as int]);
            assert(sudoers.rules@.take(i as int + 1).drop_last() =~= sudoers.rules@.take(i as int));
        }
        match v {
            Some(p) => {
                verdict = Some(p);
            },
            None => {},
        }
        i += 1;
    }
    proof {
        assert(sudoers.rules@.take(sudoers.rules@.len() as int) =~= sudoers.rules@);
    }
    match verdict {
        Some(p) => if p.0 {
            Some(p.1)
        } else {
            None
        },
        None => None,
    }
}

/// The outward authorization outcome handed to the caller.
#[derive(Clone, Copy, Debug, PartialEq, Eq, Structural)]
pub enum Authorization {
    /// Allowed, but the user must still authenticate.
    Required,
    /// Allowed with no password required: authentication is skipped.
    Passed,
    /// Not allowed.
    Forbidden,
}

/// The directory-change policy handed to the caller.
#[derive(Clone, Debug, PartialEq, Eq)]
pub enum DirChange {
    /// Any working directory may be requested.
    Any,
    /// Only the given directory (none: no change at all) is permitted.
    Strict(Option<Vec<u8>>),
}

/// The outcome of one permission check.
pub struct Judgement {
    pub flags: Option<Vec<Tag>>,
}

impl Judgement {
    /// The authorization this judgement stands for.
    pub open spec fn spec_authorization(self) -> Authorization {
        match self.flags {
            None => Authorization::Forbidden,
            Some(tags) => if tags@.contains(Tag::NoPasswd) {
                Authorization::Passed
            } else {
                Authorization::Required
            },
        }
    }

    /// Forbidden on a denial; passed when the deciding entry carried the
    /// no-password tag; required otherwise.
    pub fn authorization(&self) -> (a: Authorization)
        ensures
            a == self.spec_authorization(),
    {
        match &self.flags {
            None => Authorization::Forbidden,
            Some(tags) => {
                let mut found = false;
                let mut i: usize = 0;
                while i < tags.len()
                    invariant
                        i <= tags.len(),
                        found == exists|k: int| 0 <= k < i && tags@[k] == Tag::NoPasswd,
                    decreases tags.len() - i,
                {
                    match tags[i] {
                        Tag::NoPasswd => {
                            found = true;
                        },
                        _ => {},
                    }
                    i += 1;
                }
                if found {
                    Authorization::Passed
                } else {
                    Authorization::Required
                }
            },
        }
    }

    /// The grammar carries no directory tags, so a directory change is
    /// never permitted: strict, with no forced directory.
    pub fn chdir(&self) -> (d: DirChange)
        ensures
            d == DirChange::Strict(None::<Vec<u8>>),
    {
        DirChange::Strict(None)
    }
}

impl Sudoers {
    /// Evaluate one request and wrap the outcome for the caller.
    pub fn check(&self, am_user: &UserRecord, on_host: &Vec<u8>, request: &Request) -> (j:
        Judgement)
        requires
            self.aliases.sane(),
        ensures
            match j.flags {
                Some(tags) => spec_check_permission(*self, *am_user, on_host@, *request) == Some(
                    tags@,
                ),
                None => spec_check_permission(*self, *am_user, on_host@, *request) is None,
            },
    {
        Judgement { flags: check_permission(self, am_user, on_host, request) }
    }

    /// The secure `PATH` override collected from the settings, if any.
    pub fn secure_path(&self) -> (p: Option<Vec<u8>>)
        ensures
            match p {
                Some(v) => self.settings.secure_path matches Some(w) && v@ == w@,
                None => self.settings.secure_path is None,
            },
    {
        match &self.settings.secure_path {
            Some(w) => Some(copy_bytes(w)),
            None => None,
        }
    }
}

/// Alias membership equivalence at the rule level: a rule whose user
/// list is a single allowing reference to a defined alias applies to
/// exactly the requests that the same rule with the alias's member list
/// written in place would apply to.
pub proof fn lemma_alias_rule_equivalence(
    at: AliasTable,
    rule: PermissionRule,
    inv: UserRecord,
    host: Seq<u8>,
    req: Request,
)
    requires
        distinct_names(at.user_aliases@),
        rule.users@.len() == 1,
        is_allow_spec(rule.users@[0]),
        inner_meta(rule.users@[0]) is Alias,
        defined_in(at.user_aliases@, alias_name(inner_meta(rule.users@[0]))),
    ensures
        rule_applies(at, rule, inv, host, req) == (user_member(
            at.user_aliases@,
            at.user_aliases@[index_of(
                at.user_aliases@,
                alias_name(inner_meta(rule.users@[0])),
            )].1@,
            index_of(at.user_aliases@, alias_name(inner_meta(rule.users@[0]))),
            inv,
        ) && host_member(at.host_aliases@, rule.hosts@, at.host_aliases@.len() as int, host)
            && runas_ok(at.runas_aliases@, rule.runas, inv, req.user, req.group)),
{
    let nm = alias_name(inner_meta(rule.users@[0]));
    let j = index_of(at.user_aliases@, nm);
    let w = choose|w: int| 0 <= w < at.user_aliases@.len() && at.user_aliases@[w].0@ == nm;
    crate::eval::lemma_index_of(at.user_aliases@, nm, w);
    lemma_alias_list_equivalence(
        at.user_aliases@,
        rule.users@,
        at.user_aliases@.len() as int,
        inv,
    );
}

/// Last match wins: when rule `k` applies to the request and no later
/// rule applies, the run over the whole rule list returns exactly rule
/// `k`'s verdict — its polarity and, when allowing, its tags.
pub proof fn lemma_last_match_wins(
    at: AliasTable,
    rules: Seq<PermissionRule>,
    inv: UserRecord,
    host: Seq<u8>,
    req: Request,
    k: int,
)
    requires
        0 <= k < rules.len(),
        rule_verdict(at, rules[k], inv, host, req) is Some,
        forall|j: int| k < j < rules.len() ==> rule_verdict(at, rules[j], inv, host, req) is None,
    ensures
        rules_verdict(at, rules, inv, host, req) == rule_verdict(at, rules[k], inv, host, req),
    decreases rules.len(),
{
    if k == rules.len() - 1 {
        assert(rules.last() == rules[k]);
    } else {
        assert(rule_verdict(at, rules[rules.len() - 1], inv, host, req) is None);
        assert(rules.last() == rules[rules.len() - 1]);
        let shorter = rules.drop_last();
        assert(shorter[k] == rules[k]);
        assert forall|j: int|
            k < j < shorter.len() implies rule_verdict(at, shorter[j], inv, host, req) is None by {
            assert(shorter[j] == rules[j]);
        }
        lemma_last_match_wins(at, shorter, inv, host, req, k);
    }
}

/// Last match wins, stated on the policy's overall answer: the check
/// returns rule `k`'s tags when rule `k` allows, and denies when it
/// forbids.
pub proof fn lemma_last_match_decides(
    s: Sudoers,
    inv: UserRecord,
    host: Seq<u8>,
    req: Request,
    k: int,
)
    requires
        0 <= k < s.rules@.len(),
        rule_verdict(s.aliases, s.rules@[k], inv, host, req) is Some,
        forall|j: int|
            k < j < s.rules@.len() ==> rule_verdict(s.aliases, s.rules@[j], inv, host, req)
                is None,
    ensures
        spec_check_permission(s, inv, host, req) == (match rule_verdict(
            s.aliases,
            s.rules@[k],
            inv,
            host,
            req,
        ) {
            Some(v) => if v.0 {
                Some(v.1)
            } else {
                None::<Seq<Tag>>
            },
            None => None::<Seq<Tag>>,
        }),
{
    lemma_last_match_wins(s.aliases, s.rules@, inv, host, req, k);
}

} // verus!
