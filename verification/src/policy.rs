//! Loading a policy from configuration text.
//!
//! The text is cut into logical lines (backslash continuations spliced),
//! each line parses to a statement or to a recorded error, and the alias
//! declarations of each kind are sanitized once; a kind whose table has
//! a duplicate name or a reference cycle is left unusable (empty), so
//! evaluation treats all its aliases as unresolved.

use crate::alias::{
    appears, appears_before, bytes_eq, dep_edge, distinct_names, sanitize_alias_table,
    spec_is_ref, valid_order,
};
use crate::ast::{Command, Def, Directive, Error, Meta, PermissionRule, Qualified, Settings,
    Sudo, UserSpecifier};
use crate::check::{AliasTable, Sudoers};
use crate::eval::{alias_name, defined_in, index_of, inner_meta, lemma_index_of, resolved_member,
    table_resolved};
use crate::parse::{parse_line, rule_digests_wf, rule_val, spec_line_kind, ws_end, LineKind};
use vstd::prelude::*;

verus! {

/// The logical lines of `text` from position `i` on, with `buf` the
/// part of the current line read so far, `line_no` the current physical
/// line number and `start_no` the number of the current logical line's
/// first physical line. A physical line whose last byte is a backslash
/// is joined with the next one, the backslash and the newline dropped.
pub open spec fn lines_from(
    text: Seq<u8>,
    i: int,
    buf: Seq<u8>,
    line_no: int,
    start_no: int,
) -> Seq<(int, Seq<u8>)>
    decreases text.len() - i,
{
    if !(0 <= i < text.len()) {
        if buf.len() > 0 {
            seq![(start_no, buf)]
        } else {
            Seq::empty()
        }
    } else if text[i] == 10 {
        let next_no = if line_no < usize::MAX {
            line_no + 1
        } else {
            line_no
        };
        if buf.len() > 0 && buf.last() == 92 {
            lines_from(text, i + 1, buf.drop_last(), next_no, start_no)
        } else {
            seq![(start_no, buf)] + lines_from(text, i + 1, Seq::empty(), next_no, next_no)
        }
    } else {
        lines_from(text, i + 1, buf.push(text[i]), line_no, start_no)
    }
}

/// The logical lines of a whole configuration text, numbered from one.
pub open spec fn logical_lines(text: Seq<u8>) -> Seq<(int, Seq<u8>)> {
    lines_from(text, 0, Seq::empty(), 1, 1)
}

/// The positions and byte sequences of a built line list.
pub open spec fn line_views(l: Seq<(usize, Vec<u8>)>) -> Seq<(int, Seq<u8>)> {
    l.map(|_x: int, p: (usize, Vec<u8>)| (p.0 as int, p.1@))
}

/// Cut the configuration text into logical lines: physical lines joined
/// where one ends with a backslash, each tagged with the number of its
/// first physical line. No logical line contains a newline.
#[verifier::spinoff_prover]
pub fn split_logical_lines(text: &Vec<u8>) -> (lines: Vec<(usize, Vec<u8>)>)
    ensures
        line_views(lines@) == logical_lines(text@),
        forall|x: int, k: int|
            0 <= x < lines@.len() && 0 <= k < lines@[x].1@.len() ==> lines@[x].1@[k] != 10,
{
    let mut lines: Vec<(usize, Vec<u8>)> = Vec::new();
    let mut buf: Vec<u8> = Vec::new();
    let mut line_no: usize = 1;
    let mut start_no: usize = 1;
    let mut i: usize = 0;
    while i < text.len()
        invariant
            i <= text.len(),
            logical_lines(text@) == line_views(lines@) + lines_from(
                text@,
                i as int,
                buf@,
                line_no as int,
                start_no as int,
            ),
            forall|k: int| 0 <= k < buf@.len() ==> buf@[k] != 10,
            forall|x: int, k: int|
                0 <= x < lines@.len() && 0 <= k < lines@[x].1@.len() ==> lines@[x].1@[k] != 10,
        decreases text.len() - i,
    {
        let ghost lines_pre = lines@;
        let ghost buf_pre = buf@;
        let b = text[i];
        if b == 10 {
            if line_no < usize::MAX {
                line_no += 1;
            }
            if buf.len() > 0 && buf[buf.len() - 1] == 92 {
                // a continuation: drop the backslash, keep accumulating
                buf.pop();
                proof {
                    assert(buf@ =~= buf_pre.drop_last());
                }
            } else {
                lines.push((start_no, buf));
                buf = Vec::new();
                proof {
                    assert(line_views(lines@) =~= line_views(lines_pre).push(
                        (start_no as int, buf_pre),
                    ));
                    assert(buf@ =~= Seq::<u8>::empty());
                    assert(line_views(lines_pre) + (seq![(start_no as int, buf_pre)] + lines_from(
                        text@,
                        i as int + 1,
                        Seq::empty(),
                        line_no as int,
                        line_no as int,
                    )) =~= line_views(lines@) + lines_from(
                        text@,
                        i as int + 1,
                        Seq::empty(),
                        line_no as int,
                        line_no as int,
                    ));
                }
                start_no = line_no;
            }
        } else {
            buf.push(b);
            proof {
                assert(buf@ =~= buf_pre.push(b));
            }
        }
        i += 1;
    }
    if buf.len() > 0 {
        let ghost lines_pre = lines@;
        let ghost buf_last = buf@;
        lines.push((start_no, buf));
        proof {
            assert(line_views(lines@) =~= line_views(lines_pre).push((start_no as int, buf_last)));
            assert(line_views(lines_pre) + seq![(start_no as int, buf_last)] =~= line_views(
                lines@,
            ));
        }
    } else {
        proof {
            assert(line_views(lines@) + Seq::<(int, Seq<u8>)>::empty() =~= line_views(lines@));
        }
    }
    lines
}


/// How many of the logical lines are of the given statement class.
pub open spec fn count_kind(ls: Seq<(int, Seq<u8>)>, k: LineKind) -> int
    decreases ls.len(),
{
    if ls.len() == 0 {
        0
    } else {
        count_kind(ls.drop_last(), k) + if spec_line_kind(ls.last().1) == k {
            1int
        } else {
            0int
        }
    }
}

proof fn lemma_count_step(ls: Seq<(int, Seq<u8>)>, x: int, k: LineKind)
    requires
        0 <= x < ls.len(),
    ensures
        count_kind(ls.take(x + 1), k) == count_kind(ls.take(x), k) + if spec_line_kind(ls[x].1)
            == k {
            1int
        } else {
            0int
        },
{
    assert(ls.take(x + 1).drop_last() =~= ls.take(x));
    assert(ls.take(x + 1).last() == ls[x]);
}

proof fn lemma_count_mono(ls: Seq<(int, Seq<u8>)>, a: int, b: int, k: LineKind)
    requires
        0 <= a <= b <= ls.len(),
    ensures
        count_kind(ls.take(a), k) <= count_kind(ls.take(b), k),
    decreases b - a,
{
    if a < b {
        lemma_count_step(ls, b - 1, k);
        lemma_count_mono(ls, a, b - 1, k);
    }
}

/// The `n`-th rule of the policy is the parse of the `n`-th rule line.
pub open spec fn rules_match_lines(ls: Seq<(int, Seq<u8>)>, upto: int, rules: Seq<PermissionRule>) -> bool {
    forall|x: int|
        0 <= x < upto && #[trigger] spec_line_kind(ls[x].1) is Rule ==> {
            let n = count_kind(ls.take(x), LineKind::Rule);
            0 <= n < rules.len() && rule_val(ls[x].1, ws_end(ls[x].1, 0), rules[n])
        }
}



/// Does the definition `x` occur in the list `ys`?
pub open spec fn def_in<T>(x: Def<T>, ys: Seq<Def<T>>) -> bool {
    exists|b: int| 0 <= b < ys.len() && x == ys[b]
}

/// Do two definition lists hold exactly the same definitions (in some
/// order, each occurring in both)?
pub open spec fn same_defs<T>(xs: Seq<Def<T>>, ys: Seq<Def<T>>) -> bool {
    &&& forall|a: int| 0 <= a < xs.len() ==> def_in(#[trigger] xs[a], ys)
    &&& forall|b: int| 0 <= b < ys.len() ==> def_in(#[trigger] ys[b], xs)
}

/// Reorder an alias table into the given dependency-respecting order.
fn sort_table<T>(table: Vec<Def<T>>, order: &Vec<usize>) -> (sorted: Vec<Def<T>>)
    requires
        distinct_names(table@),
        valid_order(table@, order@),
    ensures
        sorted@.len() == table@.len(),
        forall|a: int| 0 <= a < sorted@.len() ==> sorted@[a] == table@[order@[a] as int],
        same_defs(sorted@, table@),
        distinct_names(sorted@),
        table_resolved(sorted@),
{
    let ghost orig = table@;
    let mut table = table;
    let n = order.len();
    let mut sorted: Vec<Def<T>> = Vec::new();
    let mut a: usize = 0;
    while a < n
        invariant
            a <= n,
            n == order@.len(),
            n == orig.len(),
            table@.len() == orig.len(),
            distinct_names(orig),
            valid_order(orig, order@),
            sorted@.len() == a,
            forall|x: int| 0 <= x < a ==> sorted@[x] == orig[order@[x] as int],
            forall|idx: int|
                0 <= idx < n && !appears_before(order@, a as int, idx) ==> table@[idx] == orig[idx],
        decreases n - a,
    {
        let idx = order[a];
        proof {
            assert((order@[a as int] as int) < n);
            if appears_before(order@, a as int, idx as int) {
                let b = choose|b: int| 0 <= b < a && order@[b] as int == idx as int;
                assert(order@[b] != order@[a as int]);
                assert(false);
            }
            assert(table@[idx as int] == orig[idx as int]);
        }
        let mut slot = Def(Vec::new(), Vec::new());
        table.set_and_swap(idx, &mut slot);
        sorted.push(slot);
        proof {
            assert forall|idx2: int|
                0 <= idx2 < n && !appears_before(order@, a + 1, idx2) implies table@[idx2]
                == orig[idx2] by {
                if idx2 == idx as int {
                    assert(appears_before(order@, a + 1, idx2));
                } else {
                    assert(!appears_before(order@, a as int, idx2));
                }
            }
        }
        a += 1;
    }
    proof {
        assert forall|x: int, y: int|
            0 <= x < y < sorted@.len() implies sorted@[x].0@ != sorted@[y].0@ by {
            assert(sorted@[x] == orig[order@[x] as int]);
            assert(sorted@[y] == orig[order@[y] as int]);
            assert(order@[x] != order@[y]);
            if (order@[x] as int) < (order@[y] as int) {
                assert(orig[order@[x] as int].0@ != orig[order@[y] as int].0@);
            } else {
                assert(orig[order@[y] as int].0@ != orig[order@[x] as int].0@);
            }
        }
        assert(distinct_names(sorted@));
        // in the reordered table every reference to a defined name
        // resolves to an earlier entry
        assert forall|i: int, k: int|
            0 <= i < sorted@.len() && 0 <= k < sorted@[i].1@.len() implies resolved_member(
            sorted@,
            i,
            #[trigger] sorted@[i].1@[k],
        ) by {
            let m = sorted@[i].1@[k];
            if inner_meta(m) is Alias {
                let nm = alias_name(inner_meta(m));
                match m {
                    Qualified::Allow(mm) => match mm {
                        Meta::Alias(n2) => {
                            assert(spec_is_ref(m, n2@));
                            assert(n2@ == nm);
                        },
                        _ => {},
                    },
                    Qualified::Forbid(mm) => match mm {
                        Meta::Alias(n2) => {
                            assert(spec_is_ref(m, n2@));
                            assert(n2@ == nm);
                        },
                        _ => {},
                    },
                }
                assert(spec_is_ref(m, nm));
                if defined_in(sorted@, nm) {
                    let b0 = choose|b0: int|
                        0 <= b0 < sorted@.len() && sorted@[b0].0@ == nm;
                    assert(sorted@[b0] == orig[order@[b0] as int]);
                    let j = order@[b0] as int;
                    assert(orig[j].0@ == nm);
                    assert(sorted@[i] == orig[order@[i] as int]);
                    assert(orig[order@[i] as int].1@[k] == m);
                    assert(spec_is_ref(orig[order@[i] as int].1@[k], orig[j].0@));
                    assert(dep_edge(orig, order@[i] as int, j));
                    assert(appears_before(order@, i, j));
                    let b = choose|b: int| 0 <= b < i && order@[b] as int == j;
                    assert(sorted@[b] == orig[j]);
                    assert(sorted@[b].0@ == nm);
                    lemma_index_of(sorted@, nm, b);
                    assert(0 <= index_of(sorted@, nm) < i);
                }
            }
        }
        assert(table_resolved(sorted@));
        assert forall|a: int| 0 <= a < sorted@.len() implies def_in(
            #[trigger] sorted@[a],
            orig,
        ) by {
            assert(sorted@[a] == orig[order@[a] as int]);
        }
        assert forall|b: int| 0 <= b < orig.len() implies def_in(#[trigger] orig[b], sorted@) by {
            assert(appears(order@, b));
            let a = choose|a: int| 0 <= a < order@.len() && order@[a] as int == b;
            assert(sorted@[a] == orig[b]);
        }
        assert(same_defs(sorted@, orig));
    }
    sorted
}

/// Sanitize one kind's declarations: on success, the table in
/// dependency-respecting order; on a duplicate or cycle, errors are
/// recorded and the kind's table is left empty (unusable).
fn sanitize_kind<T>(defs: Vec<Def<T>>, errs: &mut Vec<Error>) -> (table: Vec<Def<T>>)
    ensures
        distinct_names(table@),
        table_resolved(table@),
        final(errs)@.len() >= old(errs)@.len(),
        final(errs)@.len() == old(errs)@.len() ==> table@.len() == defs@.len() && same_defs(
            table@,
            defs@,
        ),
{
    let pre_len = errs.len();
    let order = sanitize_alias_table(&defs, errs);
    if errs.len() == pre_len {
        sort_table(defs, &order)
    } else {
        let empty: Vec<Def<T>> = Vec::new();
        proof {
            assert(distinct_names(empty@));
            assert(table_resolved(empty@));
        }
        empty
    }
}

/// Parse the whole configuration text into an immutable policy plus the
/// syntax and alias errors collected during the pass. Parsing continues
/// past an erroneous line, so one pass surfaces every defect; include
/// directives are recognized but not followed here.
pub fn analyze(text: &Vec<u8>) -> (r: (Sudoers, Vec<Error>))
    ensures
        r.0.aliases.sane(),
        r.0.aliases.resolved(),
        forall|k: int| 0 <= k < r.0.rules@.len() ==> rule_digests_wf(#[trigger] r.0.rules@[k]),
        r.0.rules@.len() == count_kind(logical_lines(text@), LineKind::Rule),
        rules_match_lines(logical_lines(text@), logical_lines(text@).len() as int, r.0.rules@),
        r.1@.len() >= count_kind(logical_lines(text@), LineKind::Bad),
        r.1@.len() == 0 ==> r.0.aliases.user_aliases@.len() == count_kind(
            logical_lines(text@),
            LineKind::DeclUser,
        ) && r.0.aliases.host_aliases@.len() == count_kind(
            logical_lines(text@),
            LineKind::DeclHost,
        ) && r.0.aliases.cmnd_aliases@.len() == count_kind(
            logical_lines(text@),
            LineKind::DeclCmnd,
        ) && r.0.aliases.runas_aliases@.len() == count_kind(
            logical_lines(text@),
            LineKind::DeclRunas,
        ),
{
    let lines = split_logical_lines(text);
    let mut rules: Vec<PermissionRule> = Vec::new();
    let mut user_defs: Vec<Def<UserSpecifier>> = Vec::new();
    let mut host_defs: Vec<Def<Vec<u8>>> = Vec::new();
    let mut cmnd_defs: Vec<Def<Command>> = Vec::new();
    let mut runas_defs: Vec<Def<UserSpecifier>> = Vec::new();
    let mut settings = Settings::new();
    let mut errs: Vec<Error> = Vec::new();

    let ghost lv = line_views(lines@);
    let mut x: usize = 0;
    while x < lines.len()
        invariant
            x <= lines.len(),
            lv == line_views(lines@),
            lv.len() == lines@.len(),
            forall|k: int| 0 <= k < rules@.len() ==> rule_digests_wf(#[trigger] rules@[k]),
            rules@.len() == count_kind(lv.take(x as int), LineKind::Rule),
            user_defs@.len() == count_kind(lv.take(x as int), LineKind::DeclUser),
            host_defs@.len() == count_kind(lv.take(x as int), LineKind::DeclHost),
            cmnd_defs@.len() == count_kind(lv.take(x as int), LineKind::DeclCmnd),
            runas_defs@.len() == count_kind(lv.take(x as int), LineKind::DeclRunas),
            errs@.len() == count_kind(lv.take(x as int), LineKind::Bad),
            rules_match_lines(lv, x as int, rules@),
        decreases lines.len() - x,
    {
        proof {
            assert(lv[x as int] == (lines@[x as int].0 as int, lines@[x as int].1@));
            lemma_count_mono(lv, 0, x as int, LineKind::Rule);
            assert(lv.take(0) =~= Seq::<(int, Seq<u8>)>::empty());
            lemma_count_step(lv, x as int, LineKind::Rule);
            lemma_count_step(lv, x as int, LineKind::DeclUser);
            lemma_count_step(lv, x as int, LineKind::DeclHost);
            lemma_count_step(lv, x as int, LineKind::DeclCmnd);
            lemma_count_step(lv, x as int, LineKind::DeclRunas);
            lemma_count_step(lv, x as int, LineKind::Bad);
        }
        let pos = lines[x].0;
        match parse_line(&lines[x].1) {
            Ok(st) => match st {
                Sudo::Spec(rule) => {
                    rules.push(rule);
                },
                Sudo::Decl(d) => match d {
                    Directive::UserAlias(def) => {
                        user_defs.push(def);
                    },
                    Directive::HostAlias(def) => {
                        host_defs.push(def);
                    },
                    Directive::CmndAlias(def) => {
                        cmnd_defs.push(def);
                    },
                    Directive::RunasAlias(def) => {
                        runas_defs.push(def);
                    },
                },
                Sudo::Include(_) => {},
                Sudo::IncludeDir(_) => {},
                Sudo::LineComment => {},
                Sudo::SetOption(name, value) => {
                    let kw_secure_path: Vec<u8> = vec![
                        115u8, 101u8, 99u8, 117u8, 114u8, 101u8, 95u8, 112u8, 97u8, 116u8, 104u8,
                    ];
                    if bytes_eq(&name, &kw_secure_path) {
                        settings.secure_path = Some(value);
                    }
                },
            },
            Err(kind) => {
                errs.push(Error(pos, kind));
            },
        }
        proof {
            assert forall|x2: int|
                0 <= x2 < x + 1 && #[trigger] spec_line_kind(lv[x2].1) is Rule implies {
                let n = count_kind(lv.take(x2), LineKind::Rule);
                0 <= n < rules@.len() && rule_val(lv[x2].1, ws_end(lv[x2].1, 0), rules@[n])
            } by {
                lemma_count_mono(lv, 0, x2, LineKind::Rule);
                assert(lv.take(0) =~= Seq::<(int, Seq<u8>)>::empty());
                if x2 < x {
                    lemma_count_step(lv, x2, LineKind::Rule);
                    lemma_count_mono(lv, x2 + 1, x as int, LineKind::Rule);
                }
            }
        }
        x += 1;
    }

    let user_aliases = sanitize_kind(user_defs, &mut errs);
    let host_aliases = sanitize_kind(host_defs, &mut errs);
    let cmnd_aliases = sanitize_kind(cmnd_defs, &mut errs);
    let runas_aliases = sanitize_kind(runas_defs, &mut errs);

    proof {
        assert(lv.take(lines@.len() as int) =~= lv);
        assert(rules_match_lines(lv, lv.len() as int, rules@));
    }
    let aliases = AliasTable { user_aliases, host_aliases, cmnd_aliases, runas_aliases };
    (Sudoers { rules, aliases, settings }, errs)
}

} // verus!
