//! The tokenizer and line parser.
//!
//! One logical line (continuations already spliced) parses to one
//! statement or to one line-local syntax error; a file-level pass keeps
//! going past an erroneous line so a single pass surfaces every defect.
//!
//! A `#` begins a comment unless it is immediately followed by a digit
//! (a numeric user or group id) or spells an `#include`/`#includedir`
//! directive at the start of the line; `@include`/`@includedir` are
//! equivalent spellings. Quoted strings are literal tokens, and an
//! explicit empty quoted argument pattern means "no arguments permitted".

use crate::ast::{Command, CommandSpec, Def, Directive, ErrorKind, Meta, PermissionRule,
    Qualified, RunasSpec, Sha2, Spec, Sudo, Tag, UserSpecifier};
use crate::check::{copy_tags, is_ws};
use crate::digest::{alg_keyword, hex_decoded, hex_ok, parse_alg, parse_digest};
use vstd::prelude::*;

verus! {

/// A byte that may stand in a user, group, host or alias name.
pub open spec fn is_name_byte(b: u8) -> bool {
    (65 <= b <= 90) || (97 <= b <= 122) || (48 <= b <= 57) || b == 95 || b == 45 || b == 46
}

/// A byte that may stand inside a command or argument token: anything
/// but whitespace, the entry separator and the quote. A `#` is a legal
/// token byte — inside a command-spec token it is literal, not a
/// comment start — so the comment test happens only where a token would
/// begin.
pub open spec fn is_cmd_byte(b: u8) -> bool {
    !is_ws(b) && b != 44 && b != 34 && b != 10 && b != 13
}

/// An ASCII decimal digit.
pub open spec fn is_digit(b: u8) -> bool {
    48 <= b <= 57
}

/// The first position at or after `i` holding a non-whitespace byte.
pub open spec fn ws_end(s: Seq<u8>, i: int) -> int
    decreases s.len() - i,
{
    if 0 <= i < s.len() && is_ws(s[i]) {
        ws_end(s, i + 1)
    } else {
        i
    }
}

/// The end of the maximal run of name bytes starting at `i`.
pub open spec fn name_run_end(s: Seq<u8>, i: int) -> int
    decreases s.len() - i,
{
    if 0 <= i < s.len() && is_name_byte(s[i]) {
        name_run_end(s, i + 1)
    } else {
        i
    }
}

/// The end of the maximal run of command-token bytes starting at `i`.
pub open spec fn cmd_run_end(s: Seq<u8>, i: int) -> int
    decreases s.len() - i,
{
    if 0 <= i < s.len() && is_cmd_byte(s[i]) {
        cmd_run_end(s, i + 1)
    } else {
        i
    }
}

/// The position of the first quote at or after `i`.
pub open spec fn quote_end(s: Seq<u8>, i: int) -> int
    decreases s.len() - i,
{
    if 0 <= i < s.len() && s[i] != 34 {
        quote_end(s, i + 1)
    } else {
        i
    }
}

/// Nothing but whitespace or a trailing comment from `i` on.
pub open spec fn rest_blank(s: Seq<u8>, i: int) -> bool {
    ws_end(s, i) >= s.len() || s[ws_end(s, i)] == 35
}

/// The path of an include directive whose keyword ends at `i`: one bare
/// word or one double-quoted string, with nothing but whitespace or a
/// comment after it.
pub open spec fn include_path_of(s: Seq<u8>, i: int) -> Option<Seq<u8>> {
    let p = ws_end(s, i);
    if p >= s.len() || s[p] == 35 {
        None
    } else if s[p] == 34 {
        let e = quote_end(s, p + 1);
        if e >= s.len() {
            None
        } else if rest_blank(s, e + 1) {
            Some(s.subrange(p + 1, e))
        } else {
            None
        }
    } else {
        let m = cmd_run_end(s, p);
        if m == p {
            None
        } else if rest_blank(s, m) {
            Some(s.subrange(p, m))
        } else {
            None
        }
    }
}


/// The keyword seqs of the grammar, byte for byte.
pub open spec fn kw_all_seq() -> Seq<u8> {
    seq![65u8, 76u8, 76u8]
}

pub open spec fn kw_include_seq() -> Seq<u8> {
    seq![105u8, 110u8, 99u8, 108u8, 117u8, 100u8, 101u8]
}

pub open spec fn kw_includedir_seq() -> Seq<u8> {
    seq![105u8, 110u8, 99u8, 108u8, 117u8, 100u8, 101u8, 100u8, 105u8, 114u8]
}

pub open spec fn kw_user_alias_seq() -> Seq<u8> {
    seq![85u8, 115u8, 101u8, 114u8, 95u8, 65u8, 108u8, 105u8, 97u8, 115u8]
}

pub open spec fn kw_host_alias_seq() -> Seq<u8> {
    seq![72u8, 111u8, 115u8, 116u8, 95u8, 65u8, 108u8, 105u8, 97u8, 115u8]
}

pub open spec fn kw_cmnd_alias_seq() -> Seq<u8> {
    seq![67u8, 109u8, 110u8, 100u8, 95u8, 65u8, 108u8, 105u8, 97u8, 115u8]
}

pub open spec fn kw_cmd_alias_seq() -> Seq<u8> {
    seq![67u8, 109u8, 100u8, 95u8, 65u8, 108u8, 105u8, 97u8, 115u8]
}

pub open spec fn kw_runas_alias_seq() -> Seq<u8> {
    seq![82u8, 117u8, 110u8, 97u8, 115u8, 95u8, 65u8, 108u8, 105u8, 97u8, 115u8]
}

pub open spec fn kw_defaults_seq() -> Seq<u8> {
    seq![68u8, 101u8, 102u8, 97u8, 117u8, 108u8, 116u8, 115u8]
}

pub open spec fn kw_nopasswd_seq() -> Seq<u8> {
    seq![78u8, 79u8, 80u8, 65u8, 83u8, 83u8, 87u8, 68u8]
}

pub open spec fn kw_passwd_seq() -> Seq<u8> {
    seq![80u8, 65u8, 83u8, 83u8, 87u8, 68u8]
}

/// The end of the digit run starting at `i`.
pub open spec fn digits_end(s: Seq<u8>, i: int) -> int
    decreases s.len() - i,
{
    if 0 <= i < s.len() && is_digit(s[i]) {
        digits_end(s, i + 1)
    } else {
        i
    }
}

/// The value of the digits `s[i..j]`.
pub open spec fn digits_val(s: Seq<u8>, i: int, j: int) -> int
    decreases j - i,
{
    if i < j {
        digits_val(s, i, j - 1) * 10 + (s[j - 1] - 48)
    } else {
        0
    }
}

/// Where a decimal number token starting at `i` ends, or `None` when no
/// digit stands there or the value does not fit in 32 bits.
pub open spec fn number_end(s: Seq<u8>, i: int) -> Option<int> {
    if 0 <= i < s.len() && is_digit(s[i]) && digits_val(s, i, digits_end(s, i)) <= 0xffff_ffff {
        Some(digits_end(s, i))
    } else {
        None
    }
}

/// Where the user/group item starting at `i` ends, or `None` when none
/// parses there. The recursion steps over `!` signs; the impossible
/// no-progress branches exist only to bound it.
pub open spec fn user_item_end(s: Seq<u8>, i: int) -> Option<int>
    decreases s.len() - i,
{
    let w = ws_end(s, i);
    if !(0 <= w < s.len()) {
        None
    } else if s[w] == 33 {
        if w < i {
            None
        } else {
            user_item_end(s, w + 1)
        }
    } else if s[w] == 37 {
        if w + 1 < s.len() && s[w + 1] == 35 {
            number_end(s, w + 2)
        } else {
            let e = name_run_end(s, w + 1);
            if e == w + 1 {
                None
            } else {
                Some(e)
            }
        }
    } else if s[w] == 35 {
        number_end(s, w + 1)
    } else {
        let e = name_run_end(s, w);
        if e == w {
            None
        } else {
            Some(e)
        }
    }
}

/// Where the host item starting at `i` ends.
pub open spec fn host_item_end(s: Seq<u8>, i: int) -> Option<int>
    decreases s.len() - i,
{
    let w = ws_end(s, i);
    if !(0 <= w < s.len()) {
        None
    } else if s[w] == 33 {
        if w < i {
            None
        } else {
            host_item_end(s, w + 1)
        }
    } else {
        let e = name_run_end(s, w);
        if e == w {
            None
        } else {
            Some(e)
        }
    }
}


/// The polarity flip a `!` performs.
pub open spec fn qneg<T>(q: Spec<T>) -> Spec<T> {
    match q {
        Qualified::Allow(m) => Qualified::Forbid(m),
        Qualified::Forbid(m) => Qualified::Allow(m),
    }
}

/// Is `q` the user/group item written at `i`? Meaningful where
/// `user_item_end(s, i)` is `Some`; the impossible branches are vacuous.
pub open spec fn user_item_val(s: Seq<u8>, i: int, q: Spec<UserSpecifier>) -> bool
    decreases s.len() - i,
{
    let w = ws_end(s, i);
    if !(0 <= w < s.len()) {
        true
    } else if s[w] == 33 {
        if w < i {
            true
        } else {
            user_item_val(s, w + 1, qneg(q))
        }
    } else if s[w] == 37 {
        if w + 1 < s.len() && s[w + 1] == 35 {
            q matches Qualified::Allow(Meta::Only(UserSpecifier::GroupId(g))) && g as int
                == digits_val(s, w + 2, digits_end(s, w + 2))
        } else {
            q matches Qualified::Allow(Meta::Only(UserSpecifier::Group(nm))) && nm@ == s.subrange(
                w + 1,
                name_run_end(s, w + 1),
            )
        }
    } else if s[w] == 35 {
        q matches Qualified::Allow(Meta::Only(UserSpecifier::UserId(u))) && u as int == digits_val(
            s,
            w + 1,
            digits_end(s, w + 1),
        )
    } else {
        let word = s.subrange(w, name_run_end(s, w));
        if word == kw_all_seq() {
            q == Qualified::Allow(Meta::<UserSpecifier>::All)
        } else if spec_alias_shaped(word) {
            q matches Qualified::Allow(Meta::Alias(nm)) && nm@ == word
        } else {
            q matches Qualified::Allow(Meta::Only(UserSpecifier::User(nm))) && nm@ == word
        }
    }
}

/// Is `q` the host item written at `i`?
pub open spec fn host_item_val(s: Seq<u8>, i: int, q: Spec<Vec<u8>>) -> bool
    decreases s.len() - i,
{
    let w = ws_end(s, i);
    if !(0 <= w < s.len()) {
        true
    } else if s[w] == 33 {
        if w < i {
            true
        } else {
            host_item_val(s, w + 1, qneg(q))
        }
    } else {
        let word = s.subrange(w, name_run_end(s, w));
        if word == kw_all_seq() {
            q == Qualified::Allow(Meta::<Vec<u8>>::All)
        } else if spec_alias_shaped(word) {
            q matches Qualified::Allow(Meta::Alias(nm)) && nm@ == word
        } else {
            q matches Qualified::Allow(Meta::Only(h)) && h@ == word
        }
    }
}

/// Where the comma-separated user/group list starting at `i` ends.
pub open spec fn user_list_end(s: Seq<u8>, i: int) -> Option<int>
    decreases s.len() - i,
{
    match user_item_end(s, i) {
        None => None,
        Some(j) => {
            let k = ws_end(s, j);
            if 0 <= k < s.len() && s[k] == 44 {
                if k + 1 <= i {
                    None
                } else {
                    user_list_end(s, k + 1)
                }
            } else {
                Some(k)
            }
        },
    }
}

/// Where the comma-separated host list starting at `i` ends.
pub open spec fn host_list_end(s: Seq<u8>, i: int) -> Option<int>
    decreases s.len() - i,
{
    match host_item_end(s, i) {
        None => None,
        Some(j) => {
            let k = ws_end(s, j);
            if 0 <= k < s.len() && s[k] == 44 {
                if k + 1 <= i {
                    None
                } else {
                    host_list_end(s, k + 1)
                }
            } else {
                Some(k)
            }
        },
    }
}


/// Are `items` the user/group items of the comma-separated list at `i`?
pub open spec fn user_list_val(s: Seq<u8>, i: int, items: Seq<Spec<UserSpecifier>>) -> bool
    decreases s.len() - i,
{
    match user_item_end(s, i) {
        None => true,
        Some(j) => items.len() > 0 && user_item_val(s, i, items[0]) && {
            let k = ws_end(s, j);
            if 0 <= k < s.len() && s[k] == 44 {
                if k + 1 <= i {
                    true
                } else {
                    user_list_val(s, k + 1, items.skip(1))
                }
            } else {
                items.len() == 1
            }
        },
    }
}

/// Are `items` the host items of the comma-separated list at `i`?
pub open spec fn host_list_val(s: Seq<u8>, i: int, items: Seq<Spec<Vec<u8>>>) -> bool
    decreases s.len() - i,
{
    match host_item_end(s, i) {
        None => true,
        Some(j) => items.len() > 0 && host_item_val(s, i, items[0]) && {
            let k = ws_end(s, j);
            if 0 <= k < s.len() && s[k] == 44 {
                if k + 1 <= i {
                    true
                } else {
                    host_list_val(s, k + 1, items.skip(1))
                }
            } else {
                items.len() == 1
            }
        },
    }
}

/// Where the argument tokens of a command pattern end: at the next
/// entry separator, comment or line end; `None` on an unclosed quote.
pub open spec fn cmd_args_end(s: Seq<u8>, i: int) -> Option<int>
    decreases s.len() - i,
{
    let k = ws_end(s, i);
    if !(0 <= k < s.len()) || s[k] == 44 || s[k] == 35 {
        Some(k)
    } else if s[k] == 34 {
        let e = quote_end(s, k + 1);
        if e >= s.len() {
            None
        } else if e + 1 <= i {
            None
        } else {
            cmd_args_end(s, e + 1)
        }
    } else {
        let m = cmd_run_end(s, k);
        if m <= i || m > s.len() {
            None
        } else {
            cmd_args_end(s, m)
        }
    }
}


/// Tokens joined with single spaces.
pub open spec fn join_views(ts: Seq<Seq<u8>>) -> Seq<u8>
    decreases ts.len(),
{
    if ts.len() == 0 {
        Seq::empty()
    } else if ts.len() == 1 {
        ts[0]
    } else {
        join_views(ts.drop_last()) + seq![32u8] + ts.last()
    }
}

/// The byte sequences of a token list.
pub open spec fn token_views(ts: Seq<Vec<u8>>) -> Seq<Seq<u8>> {
    ts.map(|_x: int, t: Vec<u8>| t@)
}

/// The argument tokens written from `i` to the next entry separator,
/// comment or line end: bare words and quoted strings.
pub open spec fn args_tokens(s: Seq<u8>, i: int) -> Seq<Seq<u8>>
    decreases s.len() - i,
{
    let k = ws_end(s, i);
    if !(0 <= k < s.len()) || s[k] == 44 || s[k] == 35 {
        Seq::empty()
    } else if s[k] == 34 {
        let e = quote_end(s, k + 1);
        if e >= s.len() || e + 1 <= i {
            Seq::empty()
        } else {
            seq![s.subrange(k + 1, e)] + args_tokens(s, e + 1)
        }
    } else {
        let m = cmd_run_end(s, k);
        if m <= i || m > s.len() {
            Seq::empty()
        } else {
            seq![s.subrange(k, m)] + args_tokens(s, m)
        }
    }
}

/// Is `q` the command member written at `i`: `ALL`, an alias reference,
/// or the path pattern with its argument tokens joined by single
/// spaces (`None` when no argument token stands there)?
pub open spec fn cmd_member_val(s: Seq<u8>, i: int, q: Spec<Command>) -> bool
    decreases s.len() - i,
{
    let w = ws_end(s, i);
    if !(0 <= w < s.len()) || s[w] == 35 {
        true
    } else if s[w] == 33 {
        if w < i {
            true
        } else {
            cmd_member_val(s, w + 1, qneg(q))
        }
    } else {
        let j = cmd_run_end(s, w);
        if j == w {
            true
        } else {
            let word = s.subrange(w, j);
            if word == kw_all_seq() {
                q == Qualified::Allow(Meta::<Command>::All)
            } else if spec_alias_shaped(word) {
                q matches Qualified::Allow(Meta::Alias(nm)) && nm@ == word
            } else {
                q matches Qualified::Allow(Meta::Only(c)) && c.pattern@ == word && {
                    let ts = args_tokens(s, j);
                    if ts.len() == 0 {
                        c.arguments is None
                    } else {
                        c.arguments matches Some(a) && a@ == join_views(ts)
                    }
                }
            }
        }
    }
}

/// Where the command member starting at `i` ends: `ALL`, an alias
/// reference, or a path pattern with its argument tokens.
pub open spec fn cmd_member_end(s: Seq<u8>, i: int) -> Option<int>
    decreases s.len() - i,
{
    let w = ws_end(s, i);
    if !(0 <= w < s.len()) || s[w] == 35 {
        None
    } else if s[w] == 33 {
        if w < i {
            None
        } else {
            cmd_member_end(s, w + 1)
        }
    } else {
        let j = cmd_run_end(s, w);
        if j == w {
            None
        } else if s.subrange(w, j) == kw_all_seq() || spec_alias_shaped(s.subrange(w, j)) {
            Some(j)
        } else {
            cmd_args_end(s, j)
        }
    }
}

/// Where the comma-separated command member list starting at `i` ends.
pub open spec fn cmnd_list_end(s: Seq<u8>, i: int) -> Option<int>
    decreases s.len() - i,
{
    match cmd_member_end(s, i) {
        None => None,
        Some(j) => {
            let k = ws_end(s, j);
            if 0 <= k < s.len() && s[k] == 44 {
                if k + 1 <= i {
                    None
                } else {
                    cmnd_list_end(s, k + 1)
                }
            } else {
                Some(k)
            }
        },
    }
}


/// Are `items` the command members of the comma-separated list at `i`?
pub open spec fn cmnd_list_val(s: Seq<u8>, i: int, items: Seq<Spec<Command>>) -> bool
    decreases s.len() - i,
{
    match cmd_member_end(s, i) {
        None => true,
        Some(j) => items.len() > 0 && cmd_member_val(s, i, items[0]) && {
            let k = ws_end(s, j);
            if 0 <= k < s.len() && s[k] == 44 {
                if k + 1 <= i {
                    true
                } else {
                    cmnd_list_val(s, k + 1, items.skip(1))
                }
            } else {
                items.len() == 1
            }
        },
    }
}

/// Where the parenthesized runas clause whose `(` stands at `i` ends.
pub open spec fn runas_end(s: Seq<u8>, i: int) -> Option<int> {
    let p = ws_end(s, i + 1);
    if !(0 <= p < s.len()) {
        None
    } else if s[p] == 41 {
        Some(p + 1)
    } else if s[p] == 58 {
        match user_list_end(s, p + 1) {
            None => None,
            Some(q) => {
                let q2 = ws_end(s, q);
                if 0 <= q2 < s.len() && s[q2] == 41 {
                    Some(q2 + 1)
                } else {
                    None
                }
            },
        }
    } else {
        match user_list_end(s, p) {
            None => None,
            Some(q) => {
                let q2 = ws_end(s, q);
                if 0 <= q2 < s.len() && s[q2] == 41 {
                    Some(q2 + 1)
                } else if 0 <= q2 < s.len() && s[q2] == 58 {
                    match user_list_end(s, q2 + 1) {
                        None => None,
                        Some(q3) => {
                            let q4 = ws_end(s, q3);
                            if 0 <= q4 < s.len() && s[q4] == 41 {
                                Some(q4 + 1)
                            } else {
                                None
                            }
                        },
                    }
                } else {
                    None
                }
            },
        }
    }
}

/// The tag named by a word, if any.
pub open spec fn tag_keyword(w: Seq<u8>) -> Option<Tag> {
    if w == kw_nopasswd_seq() {
        Some(Tag::NoPasswd)
    } else if w == kw_passwd_seq() {
        Some(Tag::Passwd)
    } else {
        None
    }
}

/// The position after the tag words (each followed by `:`) starting at
/// `i`.
pub open spec fn tags_scan_end(s: Seq<u8>, i: int) -> int
    decreases s.len() - i,
{
    let k = ws_end(s, i);
    let j = name_run_end(s, k);
    if j > k && tag_keyword(s.subrange(k, j)) is Some {
        let j2 = ws_end(s, j);
        if 0 <= j2 < s.len() && s[j2] == 58 && i < j2 + 1 {
            tags_scan_end(s, j2 + 1)
        } else {
            i
        }
    } else {
        i
    }
}

/// The position after an optional digest qualifier starting at `i`:
/// unchanged when no algorithm keyword with a `:` stands there, after
/// the hex literal when a valid digest does, `None` when the literal is
/// malformed or of the wrong length.
pub open spec fn digest_scan_end(s: Seq<u8>, i: int) -> Option<int> {
    let k = ws_end(s, i);
    let j = name_run_end(s, k);
    if j > k && alg_keyword(s.subrange(k, j)) is Some {
        let j2 = ws_end(s, j);
        if 0 <= j2 < s.len() && s[j2] == 58 {
            let h = ws_end(s, j2 + 1);
            let he = name_run_end(s, h);
            if he == h {
                None
            } else if hex_ok(s.subrange(h, he)) && s.subrange(h, he).len() == 2 * alg_keyword(
                s.subrange(k, j),
            )->Some_0.spec_digest_len() {
                Some(he)
            } else {
                None
            }
        } else {
            Some(i)
        }
    } else {
        Some(i)
    }
}


/// The tag words written at `i`, in order.
pub open spec fn tags_list(s: Seq<u8>, i: int) -> Seq<Tag>
    decreases s.len() - i,
{
    let k = ws_end(s, i);
    let j = name_run_end(s, k);
    if j > k && tag_keyword(s.subrange(k, j)) is Some {
        let j2 = ws_end(s, j);
        if 0 <= j2 < s.len() && s[j2] == 58 && i < j2 + 1 {
            seq![tag_keyword(s.subrange(k, j))->Some_0] + tags_list(s, j2 + 1)
        } else {
            Seq::empty()
        }
    } else {
        Seq::empty()
    }
}

/// Is `d` the digest qualifier written at `i`: `None` where none stands,
/// and otherwise the named algorithm with exactly the decoded hex bytes?
pub open spec fn digest_val_at(s: Seq<u8>, i: int, d: Option<Sha2>) -> bool {
    match digest_scan_end(s, i) {
        None => true,
        Some(p2) => if p2 == i {
            d is None
        } else {
            let k = ws_end(s, i);
            let j = name_run_end(s, k);
            let h = ws_end(s, ws_end(s, j) + 1);
            let he = name_run_end(s, h);
            d matches Some(dg) && alg_keyword(s.subrange(k, j)) == Some(dg.alg) && dg.bytes@
                == hex_decoded(s.subrange(h, he))
        },
    }
}

/// Are `entries` the command entries written from `i` to the line's
/// end? Each entry carries the tag list in effect — a fresh tag list
/// replaces the inherited one — its digest qualifier, and its command.
pub open spec fn entries_val(
    s: Seq<u8>,
    i: int,
    inherited: Seq<Tag>,
    entries: Seq<CommandSpec>,
) -> bool
    decreases s.len() - i,
{
    let tl = tags_list(s, i);
    let cur = if tl.len() > 0 {
        tl
    } else {
        inherited
    };
    let p1 = tags_scan_end(s, i);
    if p1 < i || p1 > s.len() {
        true
    } else {
        match digest_scan_end(s, p1) {
            None => true,
            Some(p2) => if p2 < i || p2 > s.len() {
                true
            } else {
                match cmd_member_end(s, p2) {
                    None => true,
                    Some(j3) => entries.len() > 0 && entries[0].tags@ == cur && digest_val_at(
                        s,
                        p1,
                        entries[0].digest,
                    ) && cmd_member_val(s, p2, entries[0].command) && {
                        let k3 = ws_end(s, j3);
                        if 0 <= k3 < s.len() && s[k3] == 44 {
                            if k3 + 1 <= i {
                                true
                            } else {
                                entries_val(s, k3 + 1, cur, entries.skip(1))
                            }
                        } else {
                            entries.len() == 1
                        }
                    },
                }
            },
        }
    }
}

/// Do well-formed command entries fill the line from `i` to its end (or
/// a trailing comment)?
pub open spec fn entries_ok(s: Seq<u8>, i: int) -> bool
    decreases s.len() - i,
{
    let p1 = tags_scan_end(s, i);
    if p1 < i {
        false
    } else {
        match digest_scan_end(s, p1) {
            None => false,
            Some(p2) => if p2 < i {
                false
            } else {
                match cmd_member_end(s, p2) {
                    None => false,
                    Some(j3) => {
                        let k3 = ws_end(s, j3);
                        if 0 <= k3 < s.len() && s[k3] == 44 {
                            if k3 + 1 <= i {
                                false
                            } else {
                                entries_ok(s, k3 + 1)
                            }
                        } else {
                            k3 >= s.len() || s[k3] == 35
                        }
                    },
                }
            },
        }
    }
}

/// Does a permission rule fill the line from `i` on: user list, host
/// list, `=`, an optional runas clause, and command entries?
pub open spec fn rule_ok(s: Seq<u8>, i: int) -> bool {
    match user_list_end(s, i) {
        None => false,
        Some(p1) => match host_list_end(s, p1) {
            None => false,
            Some(p2) => {
                let p3 = ws_end(s, p2);
                if !(0 <= p3 < s.len() && s[p3] == 61) {
                    false
                } else {
                    let p4 = ws_end(s, p3 + 1);
                    if 0 <= p4 < s.len() && s[p4] == 40 {
                        match runas_end(s, p4) {
                            None => false,
                            Some(q) => entries_ok(s, q),
                        }
                    } else {
                        entries_ok(s, p4)
                    }
                }
            },
        },
    }
}

/// Does an alias definition body (name, `=`, members, end of line) fill
/// the line from `i` on? `kind` 0 and 3 take user/group members, 1 host
/// members, 2 command members.
pub open spec fn decl_ok(s: Seq<u8>, i: int, kind: u8) -> bool {
    let p = ws_end(s, i);
    let j = name_run_end(s, p);
    if j == p || !spec_alias_shaped(s.subrange(p, j)) {
        false
    } else {
        let k = ws_end(s, j);
        if !(0 <= k < s.len() && s[k] == 61) {
            false
        } else {
            let body = k + 1;
            if kind == 0 || kind == 3 {
                match user_list_end(s, body) {
                    None => false,
                    Some(q) => rest_blank(s, q),
                }
            } else if kind == 1 {
                match host_list_end(s, body) {
                    None => false,
                    Some(q) => rest_blank(s, q),
                }
            } else {
                match cmnd_list_end(s, body) {
                    None => false,
                    Some(q) => rest_blank(s, q),
                }
            }
        }
    }
}

/// Does a recognized option directive (`name = value`) fill the line
/// from `i` on?
pub open spec fn defaults_ok(s: Seq<u8>, i: int) -> bool {
    let p = ws_end(s, i);
    let j = name_run_end(s, p);
    if j == p {
        false
    } else {
        let k = ws_end(s, j);
        if !(0 <= k < s.len() && s[k] == 61) {
            false
        } else {
            let v = ws_end(s, k + 1);
            if !(0 <= v < s.len()) || s[v] == 35 {
                false
            } else if s[v] == 34 {
                let e = quote_end(s, v + 1);
                e < s.len() && rest_blank(s, e + 1)
            } else {
                let m = cmd_run_end(s, v);
                m > v && rest_blank(s, m)
            }
        }
    }
}


/// Is `rs` the runas clause written at `i` (the `(`): `()` an explicit
/// empty user list, `(:G)` groups only, `(U)` users only, `(U:G)` both?
pub open spec fn runas_val(s: Seq<u8>, i: int, rs: RunasSpec) -> bool {
    let p = ws_end(s, i + 1);
    if !(0 <= p < s.len()) {
        true
    } else if s[p] == 41 {
        rs.users matches Some(ul) && ul@.len() == 0 && rs.groups is None
    } else if s[p] == 58 {
        &&& rs.users is None
        &&& rs.groups matches Some(gl)
        &&& user_list_val(s, p + 1, gl@)
    } else {
        match user_list_end(s, p) {
            None => true,
            Some(q) => rs.users matches Some(ul) && user_list_val(s, p, ul@) && {
                let q2 = ws_end(s, q);
                if 0 <= q2 < s.len() && s[q2] == 41 {
                    rs.groups is None
                } else if 0 <= q2 < s.len() && s[q2] == 58 {
                    rs.groups matches Some(gl) && user_list_val(s, q2 + 1, gl@)
                } else {
                    true
                }
            },
        }
    }
}

/// Is `rule` the permission rule written at `i`: its user list, host
/// list, optional runas clause, and command entries, each tied to its
/// span of the line?
pub open spec fn rule_val(s: Seq<u8>, i: int, rule: PermissionRule) -> bool {
    match user_list_end(s, i) {
        None => true,
        Some(p1) => user_list_val(s, i, rule.users@) && match host_list_end(s, p1) {
            None => true,
            Some(p2) => host_list_val(s, p1, rule.hosts@) && {
                let p3 = ws_end(s, p2);
                if !(0 <= p3 < s.len() && s[p3] == 61) {
                    true
                } else {
                    let p4 = ws_end(s, p3 + 1);
                    if 0 <= p4 < s.len() && s[p4] == 40 {
                        rule.runas matches Some(rs) && runas_val(s, p4, rs) && match runas_end(
                            s,
                            p4,
                        ) {
                            None => true,
                            Some(q) => entries_val(s, q, Seq::empty(), rule.commands@),
                        }
                    } else {
                        rule.runas is None && entries_val(s, p4, Seq::empty(), rule.commands@)
                    }
                }
            },
        },
    }
}

/// Is `d` the alias definition written after the keyword ending at `i`:
/// the declared name and its member list?
pub open spec fn decl_val(s: Seq<u8>, i: int, d: Directive) -> bool {
    let p = ws_end(s, i);
    let j = name_run_end(s, p);
    let body = ws_end(s, j) + 1;
    match d {
        Directive::UserAlias(def) => def.0@ == s.subrange(p, j) && user_list_val(s, body, def.1@),
        Directive::RunasAlias(def) => def.0@ == s.subrange(p, j) && user_list_val(
            s,
            body,
            def.1@,
        ),
        Directive::HostAlias(def) => def.0@ == s.subrange(p, j) && host_list_val(s, body, def.1@),
        Directive::CmndAlias(def) => def.0@ == s.subrange(p, j) && cmnd_list_val(s, body, def.1@),
    }
}

/// Are `name` and `value` the option directive written after the
/// keyword ending at `i`?
pub open spec fn defaults_val(s: Seq<u8>, i: int, name: Seq<u8>, value: Seq<u8>) -> bool {
    let p = ws_end(s, i);
    let j = name_run_end(s, p);
    name == s.subrange(p, j) && {
        let v = ws_end(s, ws_end(s, j) + 1);
        if 0 <= v < s.len() && s[v] == 34 {
            value == s.subrange(v + 1, quote_end(s, v + 1))
        } else {
            value == s.subrange(v, cmd_run_end(s, v))
        }
    }
}

/// The statement class of one logical line.
pub enum LineKind {
    Comment,
    Include,
    IncludeDir,
    Rule,
    DeclUser,
    DeclHost,
    DeclCmnd,
    DeclRunas,
    Setting,
    Bad,
}

/// What one logical line is: a comment, an include directive, an alias
/// declaration of some kind, an option directive, a permission rule, or
/// a line that follows no rule of the grammar.
pub open spec fn spec_line_kind(s: Seq<u8>) -> LineKind {
    let i = ws_end(s, 0);
    if !(0 <= i < s.len()) {
        LineKind::Comment
    } else if s[i] == 35 {
        if i + 1 < s.len() && is_digit(s[i + 1]) {
            if rule_ok(s, i) {
                LineKind::Rule
            } else {
                LineKind::Bad
            }
        } else {
            let j = name_run_end(s, i + 1);
            if s.subrange(i + 1, j) == kw_include_seq() {
                if include_path_of(s, j) is Some {
                    LineKind::Include
                } else {
                    LineKind::Bad
                }
            } else if s.subrange(i + 1, j) == kw_includedir_seq() {
                if include_path_of(s, j) is Some {
                    LineKind::IncludeDir
                } else {
                    LineKind::Bad
                }
            } else {
                LineKind::Comment
            }
        }
    } else if s[i] == 64 {
        let j = name_run_end(s, i + 1);
        if s.subrange(i + 1, j) == kw_include_seq() {
            if include_path_of(s, j) is Some {
                LineKind::Include
            } else {
                LineKind::Bad
            }
        } else if s.subrange(i + 1, j) == kw_includedir_seq() {
            if include_path_of(s, j) is Some {
                LineKind::IncludeDir
            } else {
                LineKind::Bad
            }
        } else {
            LineKind::Bad
        }
    } else {
        let j = name_run_end(s, i);
        if j > i && s.subrange(i, j) == kw_user_alias_seq() {
            if decl_ok(s, j, 0) {
                LineKind::DeclUser
            } else {
                LineKind::Bad
            }
        } else if j > i && s.subrange(i, j) == kw_host_alias_seq() {
            if decl_ok(s, j, 1) {
                LineKind::DeclHost
            } else {
                LineKind::Bad
            }
        } else if j > i && (s.subrange(i, j) == kw_cmnd_alias_seq() || s.subrange(i, j)
            == kw_cmd_alias_seq()) {
            if decl_ok(s, j, 2) {
                LineKind::DeclCmnd
            } else {
                LineKind::Bad
            }
        } else if j > i && s.subrange(i, j) == kw_runas_alias_seq() {
            if decl_ok(s, j, 3) {
                LineKind::DeclRunas
            } else {
                LineKind::Bad
            }
        } else if j > i && s.subrange(i, j) == kw_defaults_seq() {
            if defaults_ok(s, j) {
                LineKind::Setting
            } else {
                LineKind::Bad
            }
        } else {
            if rule_ok(s, i) {
                LineKind::Rule
            } else {
                LineKind::Bad
            }
        }
    }
}

/// A line whose first non-whitespace byte opens a comment.
pub open spec fn comment_shaped(s: Seq<u8>) -> bool {
    exists|i: int|
        0 <= i < s.len() && s[i] == 35 && (forall|k: int| 0 <= k < i ==> is_ws(s[k]))
}

/// The spelling of an alias name: upper-case letters, digits and
/// underscores, opening with a letter.
pub open spec fn spec_alias_shaped(s: Seq<u8>) -> bool {
    s.len() > 0 && 65 <= s[0] <= 90 && forall|k: int|
        0 <= k < s.len() ==> (65 <= s[k] <= 90 || (48 <= s[k] <= 57) || s[k] == 95)
}

/// Skip whitespace: the first position at or after `i` holding a
/// non-whitespace byte, or the end of the line.
pub fn skip_ws(s: &Vec<u8>, i: usize) -> (j: usize)
    requires
        i <= s.len(),
    ensures
        i <= j <= s.len(),
        forall|k: int| i <= k < j ==> is_ws(s@[k]),
        j < s.len() ==> !is_ws(s@[j as int]),
        j == ws_end(s@, i as int),
{
    let mut j = i;
    while j < s.len() && (s[j] == 32 || s[j] == 9)
        invariant
            i <= j <= s.len(),
            forall|k: int| i <= k < j ==> is_ws(s@[k]),
            ws_end(s@, i as int) == ws_end(s@, j as int),
        decreases s.len() - j,
    {
        j += 1;
    }
    j
}

/// The end of the maximal run of name bytes starting at `i`.
pub fn name_end(s: &Vec<u8>, i: usize) -> (j: usize)
    requires
        i <= s.len(),
    ensures
        i <= j <= s.len(),
        forall|k: int| i <= k < j ==> is_name_byte(s@[k]),
        j < s.len() ==> !is_name_byte(s@[j as int]),
        j == name_run_end(s@, i as int),
{
    let mut j = i;
    while j < s.len() && ((65 <= s[j] && s[j] <= 90) || (97 <= s[j] && s[j] <= 122) || (48 <= s[j]
        && s[j] <= 57) || s[j] == 95 || s[j] == 45 || s[j] == 46)
        invariant
            i <= j <= s.len(),
            forall|k: int| i <= k < j ==> is_name_byte(s@[k]),
            name_run_end(s@, i as int) == name_run_end(s@, j as int),
        decreases s.len() - j,
    {
        j += 1;
    }
    j
}

/// The end of the maximal run of command-token bytes starting at `i`.
pub fn cmd_end(s: &Vec<u8>, i: usize) -> (j: usize)
    requires
        i <= s.len(),
    ensures
        i <= j <= s.len(),
        forall|k: int| i <= k < j ==> is_cmd_byte(s@[k]),
        j < s.len() ==> !is_cmd_byte(s@[j as int]),
        j == cmd_run_end(s@, i as int),
{
    let mut j = i;
    while j < s.len() && !(s[j] == 32 || s[j] == 9 || s[j] == 44 || s[j] == 34 || s[j] == 10
        || s[j] == 13)
        invariant
            i <= j <= s.len(),
            forall|k: int| i <= k < j ==> is_cmd_byte(s@[k]),
            cmd_run_end(s@, i as int) == cmd_run_end(s@, j as int),
        decreases s.len() - j,
    {
        j += 1;
    }
    j
}

/// The bytes of `s` from `a` to `b`.
pub fn sub_bytes(s: &Vec<u8>, a: usize, b: usize) -> (r: Vec<u8>)
    requires
        a <= b <= s.len(),
    ensures
        r@ == s@.subrange(a as int, b as int),
{
    let mut out: Vec<u8> = Vec::new();
    let mut k = a;
    while k < b
        invariant
            a <= k <= b <= s.len(),
            out@.len() == k - a,
            forall|x: int| 0 <= x < out@.len() ==> out@[x] == s@[a + x],
        decreases b - k,
    {
        out.push(s[k]);
        k += 1;
    }
    proof {
        assert(out@ =~= s@.subrange(a as int, b as int));
    }
    out
}

/// Does the word occupy `s[i..j]` exactly, byte for byte?
fn word_is(s: &Vec<u8>, i: usize, j: usize, w: &Vec<u8>) -> (r: bool)
    requires
        i <= j <= s.len(),
    ensures
        r == (s@.subrange(i as int, j as int) == w@),
{
    if j - i != w.len() {
        proof {
            assert(s@.subrange(i as int, j as int).len() == j - i);
        }
        return false;
    }
    let mut k: usize = 0;
    while k < w.len()
        invariant
            k <= w.len(),
            i <= j <= s.len(),
            j - i == w.len(),
            forall|x: int| 0 <= x < k ==> s@[i + x] == w@[x],
        decreases w.len() - k,
    {
        if s[i + k] != w[k] {
            proof {
                assert(s@.subrange(i as int, j as int)[k as int] == s@[i + k]);
            }
            return false;
        }
        k += 1;
    }
    proof {
        assert(s@.subrange(i as int, j as int) =~= w@);
    }
    true
}

/// Is the word at `s[i..j]` spelled like an alias name?
fn alias_shaped(s: &Vec<u8>, i: usize, j: usize) -> (r: bool)
    requires
        i <= j <= s.len(),
    ensures
        r == spec_alias_shaped(s@.subrange(i as int, j as int)),
{
    if i == j {
        return false;
    }
    if !(65 <= s[i] && s[i] <= 90) {
        proof {
            assert(s@.subrange(i as int, j as int)[0] == s@[i as int]);
        }
        return false;
    }
    let mut k = i;
    while k < j
        invariant
            i <= k <= j <= s.len(),
            forall|x: int|
                i <= x < k ==> (65 <= s@[x] <= 90 || (48 <= s@[x] <= 57) || s@[x] == 95),
        decreases j - k,
    {
        if !((65 <= s[k] && s[k] <= 90) || (48 <= s[k] && s[k] <= 57) || s[k] == 95) {
            proof {
                assert(s@.subrange(i as int, j as int)[k - i] == s@[k as int]);
            }
            return false;
        }
        k += 1;
    }
    proof {
        assert forall|x: int|
            0 <= x < s@.subrange(i as int, j as int).len() implies (65 <= s@.subrange(
            i as int,
            j as int,
        )[x] <= 90 || (48 <= s@.subrange(i as int, j as int)[x] <= 57) || s@.subrange(
            i as int,
            j as int,
        )[x] == 95) by {
            assert(s@.subrange(i as int, j as int)[x] == s@[i + x]);
        }
        assert(s@.subrange(i as int, j as int)[0] == s@[i as int]);
    }
    true
}


proof fn lemma_digits_props(s: Seq<u8>, i: int)
    requires
        0 <= i <= s.len(),
    ensures
        i <= digits_end(s, i) <= s.len(),
        forall|k: int| i <= k < digits_end(s, i) ==> is_digit(s[k]),
    decreases s.len() - i,
{
    if i < s.len() && is_digit(s[i]) {
        lemma_digits_props(s, i + 1);
    }
}

proof fn lemma_digits_val_nonneg(s: Seq<u8>, i: int, j: int)
    requires
        forall|k: int| i <= k < j ==> is_digit(s[k]),
    ensures
        digits_val(s, i, j) >= 0,
    decreases j - i,
{
    if i < j {
        lemma_digits_val_nonneg(s, i, j - 1);
    }
}

proof fn lemma_digits_val_mono(s: Seq<u8>, i: int, j1: int, j2: int)
    requires
        j1 <= j2,
        forall|k: int| i <= k < j2 ==> is_digit(s[k]),
    ensures
        digits_val(s, i, j1) <= digits_val(s, i, j2),
    decreases j2 - j1,
{
    if j1 < j2 {
        lemma_digits_val_mono(s, i, j1, j2 - 1);
        lemma_digits_val_nonneg(s, i, j2 - 1);
    }
}

/// Read an unsigned decimal number; a run of digits that does not fit in
/// 32 bits is a syntax error.
fn read_number(s: &Vec<u8>, i: usize) -> (r: Result<(u32, usize), ErrorKind>)
    requires
        i <= s.len(),
    ensures
        r matches Ok(p) ==> i < p.1 <= s.len() && (forall|k: int| i <= k < p.1 ==> is_digit(s@[k]))
            && (p.1 < s.len() ==> !is_digit(s@[p.1 as int])),
        r matches Ok(p) ==> number_end(s@, i as int) == Some(p.1 as int) && p.0 as int
            == digits_val(s@, i as int, p.1 as int),
        r is Err ==> number_end(s@, i as int) is None,
{
    if i >= s.len() || !(48 <= s[i] && s[i] <= 57) {
        return Err(ErrorKind::BadSyntax);
    }
    let mut val: u64 = 0;
    let mut j = i;
    while j < s.len() && 48 <= s[j] && s[j] <= 57
        invariant
            i <= j <= s.len(),
            i < s.len() && is_digit(s@[i as int]),
            forall|k: int| i <= k < j ==> is_digit(s@[k]),
            val <= 0xffff_ffffu64,
            digits_end(s@, i as int) == digits_end(s@, j as int),
            val as int == digits_val(s@, i as int, j as int),
        decreases s.len() - j,
    {
        let d = (s[j] - 48) as u64;
        proof {
            // the whole digit run is at least as large as what was read
            lemma_digits_props(s@, i as int);
            assert(digits_end(s@, j as int) == digits_end(s@, j as int + 1));
            lemma_digits_props(s@, j as int + 1);
            assert(digits_val(s@, i as int, j as int + 1) == digits_val(s@, i as int, j as int)
                * 10 + (s@[j as int] - 48));
            lemma_digits_val_mono(
                s@,
                i as int,
                j as int + 1,
                digits_end(s@, i as int),
            );
        }
        if val > 0xffff_ffffu64 / 10 {
            return Err(ErrorKind::BadSyntax);
        }
        val = val * 10 + d;
        if val > 0xffff_ffffu64 {
            return Err(ErrorKind::BadSyntax);
        }
        j += 1;
    }
    Ok((val as u32, j))
}

/// Read a double-quoted token starting at the quote; the token is the
/// bytes between the quotes.
fn read_quoted(s: &Vec<u8>, i: usize) -> (r: Result<(Vec<u8>, usize), ErrorKind>)
    requires
        i < s.len(),
        s@[i as int] == 34,
    ensures
        r matches Ok(p) ==> i < p.1 <= s.len() && p.0@ == s@.subrange(i as int + 1, p.1 - 1)
            && quote_end(s@, i as int + 1) == p.1 - 1,
        r is Err ==> quote_end(s@, i as int + 1) >= s.len(),
{
    let mut j = i + 1;
    while j < s.len() && s[j] != 34
        invariant
            i + 1 <= j <= s.len(),
            quote_end(s@, i as int + 1) == quote_end(s@, j as int),
        decreases s.len() - j,
    {
        j += 1;
    }
    if j >= s.len() {
        return Err(ErrorKind::BadSyntax);
    }
    let content = sub_bytes(s, i + 1, j);
    Ok((content, j + 1))
}

/// Is everything from `i` on whitespace or a trailing comment?
pub fn rest_is_blank(s: &Vec<u8>, i: usize) -> (r: bool)
    requires
        i <= s.len(),
    ensures
        r == rest_blank(s@, i as int),
{
    let j = skip_ws(s, i);
    j == s.len() || s[j] == 35
}

/// One user/group item: a name, `%group`, `#uid`, `%#gid`, `ALL`, or an
/// alias reference, behind any number of negations.
fn parse_user_item(s: &Vec<u8>, i: usize) -> (r: Result<(Spec<UserSpecifier>, usize), ErrorKind>)
    requires
        i <= s.len(),
    ensures
        r matches Ok(p) ==> i <= p.1 <= s.len() && user_item_end(s@, i as int) == Some(
            p.1 as int,
        ) && user_item_val(s@, i as int, p.0),
        r is Err ==> user_item_end(s@, i as int) is None,
    decreases s.len() - i,
{
    let i = skip_ws(s, i);
    if i >= s.len() {
        return Err(ErrorKind::BadSyntax);
    }
    if s[i] == 33 {
        // a `!`: flip the polarity of what follows
        match parse_user_item(s, i + 1) {
            Ok((q, j)) => {
                return Ok((q.neg(), j));
            },
            Err(e) => {
                return Err(e);
            },
        }
    }
    if s[i] == 37 {
        // `%group` or `%#gid`
        if i + 1 < s.len() && s[i + 1] == 35 {
            match read_number(s, i + 2) {
                Ok((gid, j)) => {
                    return Ok((Qualified::Allow(Meta::Only(UserSpecifier::GroupId(gid))), j));
                },
                Err(e) => {
                    return Err(e);
                },
            }
        }
        let j = name_end(s, i + 1);
        if j == i + 1 {
            return Err(ErrorKind::BadSyntax);
        }
        return Ok((Qualified::Allow(Meta::Only(UserSpecifier::Group(sub_bytes(s, i + 1, j)))), j));
    }
    if s[i] == 35 {
        // `#uid`; a `#` not followed by a digit starts a comment, so no
        // item stands here
        match read_number(s, i + 1) {
            Ok((uid, j)) => {
                return Ok((Qualified::Allow(Meta::Only(UserSpecifier::UserId(uid))), j));
            },
            Err(e) => {
                return Err(e);
            },
        }
    }
    let j = name_end(s, i);
    if j == i {
        return Err(ErrorKind::BadSyntax);
    }
    let word = sub_bytes(s, i, j);
    let kw_all: Vec<u8> = vec![65u8, 76u8, 76u8];
    proof {
        assert(kw_all@ =~= kw_all_seq());
    }
    if word_is(s, i, j, &kw_all) {
        return Ok((Qualified::Allow(Meta::All), j));
    }
    if alias_shaped(s, i, j) {
        return Ok((Qualified::Allow(Meta::Alias(word)), j));
    }
    Ok((Qualified::Allow(Meta::Only(UserSpecifier::User(word))), j))
}

/// One host item: a host name, `ALL`, or an alias reference.
fn parse_host_item(s: &Vec<u8>, i: usize) -> (r: Result<(Spec<Vec<u8>>, usize), ErrorKind>)
    requires
        i <= s.len(),
    ensures
        r matches Ok(p) ==> i <= p.1 <= s.len() && host_item_end(s@, i as int) == Some(
            p.1 as int,
        ) && host_item_val(s@, i as int, p.0),
        r is Err ==> host_item_end(s@, i as int) is None,
    decreases s.len() - i,
{
    let i = skip_ws(s, i);
    if i >= s.len() {
        return Err(ErrorKind::BadSyntax);
    }
    if s[i] == 33 {
        match parse_host_item(s, i + 1) {
            Ok((q, j)) => {
                return Ok((q.neg(), j));
            },
            Err(e) => {
                return Err(e);
            },
        }
    }
    let j = name_end(s, i);
    if j == i {
        return Err(ErrorKind::BadSyntax);
    }
    let word = sub_bytes(s, i, j);
    let kw_all: Vec<u8> = vec![65u8, 76u8, 76u8];
    proof {
        assert(kw_all@ =~= kw_all_seq());
    }
    if word_is(s, i, j, &kw_all) {
        return Ok((Qualified::Allow(Meta::All), j));
    }
    if alias_shaped(s, i, j) {
        return Ok((Qualified::Allow(Meta::Alias(word)), j));
    }
    Ok((Qualified::Allow(Meta::Only(word)), j))
}

/// A comma-separated list of user/group items.
fn parse_user_list(s: &Vec<u8>, i: usize) -> (r: Result<
    (Vec<Spec<UserSpecifier>>, usize),
    ErrorKind,
>)
    requires
        i <= s.len(),
    ensures
        r matches Ok(p) ==> p.1 <= s.len() && user_list_end(s@, i as int) == Some(p.1 as int)
            && user_list_val(s@, i as int, p.0@),
        r is Err ==> user_list_end(s@, i as int) is None,
    decreases s.len() - i,
{
    let (item, j) = match parse_user_item(s, i) {
        Ok(p) => p,
        Err(e) => {
            return Err(e);
        },
    };
    let k = skip_ws(s, j);
    if k < s.len() && s[k] == 44 {
        if k + 1 <= i {
            return Err(ErrorKind::BadSyntax);
        }
        match parse_user_list(s, k + 1) {
            Ok((rest, end)) => {
                let mut items = rest;
                let ghost rest_view = items@;
                items.insert(0, item);
                proof {
                    assert(items@.skip(1) =~= rest_view);
                }
                Ok((items, end))
            },
            Err(e) => Err(e),
        }
    } else {
        let mut items: Vec<Spec<UserSpecifier>> = Vec::new();
        items.push(item);
        Ok((items, k))
    }
}

/// A comma-separated list of host items.
fn parse_host_list(s: &Vec<u8>, i: usize) -> (r: Result<(Vec<Spec<Vec<u8>>>, usize), ErrorKind>)
    requires
        i <= s.len(),
    ensures
        r matches Ok(p) ==> p.1 <= s.len() && host_list_end(s@, i as int) == Some(p.1 as int)
            && host_list_val(s@, i as int, p.0@),
        r is Err ==> host_list_end(s@, i as int) is None,
    decreases s.len() - i,
{
    let (item, j) = match parse_host_item(s, i) {
        Ok(p) => p,
        Err(e) => {
            return Err(e);
        },
    };
    let k = skip_ws(s, j);
    if k < s.len() && s[k] == 44 {
        if k + 1 <= i {
            return Err(ErrorKind::BadSyntax);
        }
        match parse_host_list(s, k + 1) {
            Ok((rest, end)) => {
                let mut items = rest;
                let ghost rest_view = items@;
                items.insert(0, item);
                proof {
                    assert(items@.skip(1) =~= rest_view);
                }
                Ok((items, end))
            },
            Err(e) => Err(e),
        }
    } else {
        let mut items: Vec<Spec<Vec<u8>>> = Vec::new();
        items.push(item);
        Ok((items, k))
    }
}

/// Join argument tokens with single spaces.
fn join_tokens(tokens: &Vec<Vec<u8>>) -> (r: Vec<u8>)
    ensures
        r@ == join_views(token_views(tokens@)),
{
    let mut out: Vec<u8> = Vec::new();
    let mut i: usize = 0;
    proof {
        assert(token_views(tokens@).take(0) =~= Seq::<Seq<u8>>::empty());
    }
    while i < tokens.len()
        invariant
            i <= tokens.len(),
            out@ == join_views(token_views(tokens@).take(i as int)),
        decreases tokens.len() - i,
    {
        let ghost tv = token_views(tokens@);
        let ghost out_pre = out@;
        if i > 0 {
            out.push(32);
        }
        let ghost out_mid = out@;
        let t = &tokens[i];
        let mut k: usize = 0;
        while k < t.len()
            invariant
                k <= t.len(),
                t@ == tokens@[i as int]@,
                i < tokens.len(),
                out@ == out_mid + t@.take(k as int),
            decreases t.len() - k,
        {
            proof {
                assert(out_mid + t@.take(k as int + 1) =~= (out_mid + t@.take(k as int)).push(
                    t@[k as int],
                ));
            }
            out.push(t[k]);
            k += 1;
        }
        proof {
            assert(t@.take(t@.len() as int) =~= t@);
            assert(tv[i as int] == tokens@[i as int]@);
            assert(tv.take(i as int + 1).drop_last() =~= tv.take(i as int));
            assert(tv.take(i as int + 1).last() == tv[i as int]);
            if i == 0 {
                assert(out_pre =~= Seq::<u8>::empty());
                assert(out@ =~= t@);
            } else {
                assert(out_mid =~= out_pre + seq![32u8]);
                assert(out@ =~= out_pre + seq![32u8] + t@);
            }
        }
        i += 1;
    }
    proof {
        assert(token_views(tokens@).take(tokens@.len() as int) =~= token_views(tokens@));
    }
    out
}

/// One command member: `ALL`, an alias reference, or a path pattern with
/// an optional argument pattern, behind any number of negations.
fn parse_cmd_member(s: &Vec<u8>, i: usize) -> (r: Result<(Spec<Command>, usize), ErrorKind>)
    requires
        i <= s.len(),
    ensures
        r matches Ok(p) ==> i <= p.1 <= s.len() && cmd_member_end(s@, i as int) == Some(
            p.1 as int,
        ) && cmd_member_val(s@, i as int, p.0),
        r is Err ==> cmd_member_end(s@, i as int) is None,
    decreases s.len() - i,
{
    let w = skip_ws(s, i);
    if w >= s.len() || s[w] == 35 {
        return Err(ErrorKind::BadSyntax);
    }
    if s[w] == 33 {
        match parse_cmd_member(s, w + 1) {
            Ok((q, j)) => {
                return Ok((q.neg(), j));
            },
            Err(e) => {
                return Err(e);
            },
        }
    }
    let j = cmd_end(s, w);
    if j == w {
        return Err(ErrorKind::BadSyntax);
    }
    let kw_all: Vec<u8> = vec![65u8, 76u8, 76u8];
    proof {
        assert(kw_all@ =~= kw_all_seq());
    }
    if word_is(s, w, j, &kw_all) {
        return Ok((Qualified::Allow(Meta::All), j));
    }
    if alias_shaped(s, w, j) {
        return Ok((Qualified::Allow(Meta::Alias(sub_bytes(s, w, j))), j));
    }
    let pattern = sub_bytes(s, w, j);
    // argument tokens up to the next entry, comment or line end
    let mut tokens: Vec<Vec<u8>> = Vec::new();
    let mut pos = j;
    loop
        invariant
            i <= pos <= s.len(),
            cmd_member_end(s@, i as int) == cmd_args_end(s@, pos as int),
            args_tokens(s@, j as int) == token_views(tokens@) + args_tokens(s@, pos as int),
            w == ws_end(s@, i as int),
            i <= w < s.len(),
            s@[w as int] != 35 && s@[w as int] != 33,
            j == cmd_run_end(s@, w as int),
            w < j,
            pattern@ == s@.subrange(w as int, j as int),
            s@.subrange(w as int, j as int) != kw_all_seq(),
            !spec_alias_shaped(s@.subrange(w as int, j as int)),
        decreases s.len() + 1 - pos,
    {
        let k = skip_ws(s, pos);
        if k >= s.len() || s[k] == 44 || s[k] == 35 {
            proof {
                assert(args_tokens(s@, pos as int) =~= Seq::<Seq<u8>>::empty());
                assert(token_views(tokens@) + Seq::<Seq<u8>>::empty() =~= token_views(tokens@));
            }
            let arguments = if tokens.len() == 0 {
                None
            } else {
                Some(join_tokens(&tokens))
            };
            return Ok((Qualified::Allow(Meta::Only(Command { pattern, arguments })), k));
        }
        if s[k] == 34 {
            match read_quoted(s, k) {
                Ok((tok, q)) => {
                    if q <= pos {
                        return Err(ErrorKind::BadSyntax);
                    }
                    let ghost tv_pre = token_views(tokens@);
                    let ghost tok_view = tok@;
                    tokens.push(tok);
                    proof {
                        assert(token_views(tokens@) =~= tv_pre.push(tok_view));
                        assert(tv_pre + (seq![tok_view] + args_tokens(s@, q as int)) =~= tv_pre.push(
                            tok_view,
                        ) + args_tokens(s@, q as int));
                    }
                    pos = q;
                },
                Err(e) => {
                    return Err(e);
                },
            }
        } else {
            let m = cmd_end(s, k);
            if m <= pos {
                return Err(ErrorKind::BadSyntax);
            }
            let ghost tv_pre = token_views(tokens@);
            let tok = sub_bytes(s, k, m);
            let ghost tok_view = tok@;
            tokens.push(tok);
            proof {
                assert(token_views(tokens@) =~= tv_pre.push(tok_view));
                assert(tv_pre + (seq![tok_view] + args_tokens(s@, m as int)) =~= tv_pre.push(
                    tok_view,
                ) + args_tokens(s@, m as int));
            }
            pos = m;
        }
    }
}

/// A comma-separated list of command members, as in a command alias
/// definition.
fn parse_cmnd_list(s: &Vec<u8>, i: usize) -> (r: Result<(Vec<Spec<Command>>, usize), ErrorKind>)
    requires
        i <= s.len(),
    ensures
        r matches Ok(p) ==> p.1 <= s.len() && cmnd_list_end(s@, i as int) == Some(p.1 as int)
            && cmnd_list_val(s@, i as int, p.0@),
        r is Err ==> cmnd_list_end(s@, i as int) is None,
    decreases s.len() - i,
{
    let (item, j) = match parse_cmd_member(s, i) {
        Ok(p) => p,
        Err(e) => {
            return Err(e);
        },
    };
    let k = skip_ws(s, j);
    if k < s.len() && s[k] == 44 {
        if k + 1 <= i {
            return Err(ErrorKind::BadSyntax);
        }
        match parse_cmnd_list(s, k + 1) {
            Ok((rest, end)) => {
                let mut items = rest;
                let ghost rest_view = items@;
                items.insert(0, item);
                proof {
                    assert(items@.skip(1) =~= rest_view);
                }
                Ok((items, end))
            },
            Err(e) => Err(e),
        }
    } else {
        let mut items: Vec<Spec<Command>> = Vec::new();
        items.push(item);
        Ok((items, k))
    }
}

/// The parenthesized runas clause, the cursor standing on `(`.
fn parse_runas(s: &Vec<u8>, i: usize) -> (r: Result<(RunasSpec, usize), ErrorKind>)
    requires
        i < s.len(),
        s@[i as int] == 40,
    ensures
        r matches Ok(p) ==> p.1 <= s.len() && runas_end(s@, i as int) == Some(p.1 as int)
            && runas_val(s@, i as int, p.0),
        r is Err ==> runas_end(s@, i as int) is None,
{
    let pos = skip_ws(s, i + 1);
    if pos >= s.len() {
        return Err(ErrorKind::BadSyntax);
    }
    if s[pos] == 41 {
        // `()`: no identity is permitted
        return Ok((RunasSpec { users: Some(Vec::new()), groups: None }, pos + 1));
    }
    if s[pos] == 58 {
        // `(:G)`: no user change, groups constrained
        let (groups, q) = match parse_user_list(s, pos + 1) {
            Ok(p) => p,
            Err(e) => {
                return Err(e);
            },
        };
        let q2 = skip_ws(s, q);
        if q2 < s.len() && s[q2] == 41 {
            return Ok((RunasSpec { users: None, groups: Some(groups) }, q2 + 1));
        }
        return Err(ErrorKind::BadSyntax);
    }
    let (users, q) = match parse_user_list(s, pos) {
        Ok(p) => p,
        Err(e) => {
            return Err(e);
        },
    };
    let q2 = skip_ws(s, q);
    if q2 < s.len() && s[q2] == 41 {
        return Ok((RunasSpec { users: Some(users), groups: None }, q2 + 1));
    }
    if q2 < s.len() && s[q2] == 58 {
        let (groups, q3) = match parse_user_list(s, q2 + 1) {
            Ok(p) => p,
            Err(e) => {
                return Err(e);
            },
        };
        let q4 = skip_ws(s, q3);
        if q4 < s.len() && s[q4] == 41 {
            return Ok((
                RunasSpec { users: Some(users), groups: Some(groups) },
                q4 + 1,
            ));
        }
    }
    Err(ErrorKind::BadSyntax)
}

/// Do all entries of the list carry well-formed digests?
pub open spec fn entries_digests_wf(entries: Seq<CommandSpec>) -> bool {
    forall|k: int|
        0 <= k < entries.len() ==> match #[trigger] entries[k].digest {
            Some(d) => d.wf(),
            None => true,
        }
}

/// Do all of a rule's command entries carry well-formed digests?
pub open spec fn rule_digests_wf(rule: PermissionRule) -> bool {
    entries_digests_wf(rule.commands@)
}

/// The tag words at `i`, each followed by `:`, and the position after
/// them.
fn parse_tags(s: &Vec<u8>, i: usize) -> (r: (Vec<Tag>, usize))
    requires
        i <= s.len(),
    ensures
        i <= r.1 <= s.len(),
        r.1 as int == tags_scan_end(s@, i as int),
        r.0@ == tags_list(s@, i as int),
    decreases s.len() - i,
{
    let k = skip_ws(s, i);
    let j = name_end(s, k);
    let kw_nopasswd: Vec<u8> = vec![78u8, 79u8, 80u8, 65u8, 83u8, 83u8, 87u8, 68u8];
    let kw_passwd: Vec<u8> = vec![80u8, 65u8, 83u8, 83u8, 87u8, 68u8];
    proof {
        assert(kw_nopasswd@ =~= kw_nopasswd_seq());
        assert(kw_passwd@ =~= kw_passwd_seq());
    }
    let mut this_tag: Option<Tag> = None;
    if j > k {
        if word_is(s, k, j, &kw_nopasswd) {
            this_tag = Some(Tag::NoPasswd);
        } else if word_is(s, k, j, &kw_passwd) {
            this_tag = Some(Tag::Passwd);
        }
    }
    match this_tag {
        Some(t) => {
            let j2 = skip_ws(s, j);
            if j2 < s.len() && s[j2] == 58 {
                let (rest, end) = parse_tags(s, j2 + 1);
                let mut tags = rest;
                let ghost rest_view = tags@;
                tags.insert(0, t);
                proof {
                    assert(tags@ =~= seq![t] + rest_view);
                }
                (tags, end)
            } else {
                let empty: Vec<Tag> = Vec::new();
                proof {
                    assert(empty@ =~= Seq::<Tag>::empty());
                }
                (empty, i)
            }
        },
        None => {
            let empty: Vec<Tag> = Vec::new();
            proof {
                assert(empty@ =~= Seq::<Tag>::empty());
            }
            (empty, i)
        },
    }
}

/// The comma-separated command entries of a rule, from `i` to the end
/// of the line (or a trailing comment), with `tags` the tag list
/// inherited from earlier entries of the same rule.
fn entries_rec(s: &Vec<u8>, i: usize, tags: Vec<Tag>) -> (r: Result<Vec<CommandSpec>, ErrorKind>)
    requires
        i <= s.len(),
    ensures
        r matches Ok(entries) ==> entries_digests_wf(entries@) && entries@.len() > 0
            && entries_ok(s@, i as int) && entries_val(s@, i as int, tags@, entries@),
        r is Err ==> !entries_ok(s@, i as int),
    decreases s.len() - i,
{
    // tag words, each followed by `:`; a fresh list replaces the old
    let (new_tags, p1) = parse_tags(s, i);
    let cur = if new_tags.len() > 0 {
        new_tags
    } else {
        tags
    };
    // an optional digest qualifier: an algorithm keyword, `:`, and a
    // hex literal that must decode to the algorithm's exact length
    let mut digest: Option<Sha2> = None;
    let mut pos = p1;
    let k = skip_ws(s, p1);
    let j = name_end(s, k);
    if j > k {
        match parse_alg(&sub_bytes(s, k, j)) {
            Some(alg) => {
                let j2 = skip_ws(s, j);
                if j2 < s.len() && s[j2] == 58 {
                    let h = skip_ws(s, j2 + 1);
                    let he = name_end(s, h);
                    if he == h {
                        return Err(ErrorKind::BadHex);
                    }
                    match parse_digest(alg, &sub_bytes(s, h, he)) {
                        Ok(d) => {
                            digest = Some(d);
                            pos = he;
                        },
                        Err(e) => {
                            return Err(e);
                        },
                    }
                }
            },
            None => {},
        }
    }
    let (command, j3) = match parse_cmd_member(s, pos) {
        Ok(p) => p,
        Err(e) => {
            return Err(e);
        },
    };
    let entry = CommandSpec { tags: copy_tags(&cur), command, digest };
    let k3 = skip_ws(s, j3);
    if k3 < s.len() && s[k3] == 44 {
        if k3 + 1 <= i {
            return Err(ErrorKind::BadSyntax);
        }
        match entries_rec(s, k3 + 1, cur) {
            Ok(rest) => {
                let mut entries = rest;
                let ghost rest_view = entries@;
                entries.insert(0, entry);
                proof {
                    assert(entries@.skip(1) =~= rest_view);
                    assert forall|kk: int|
                        0 <= kk < entries@.len() implies match #[trigger] entries@[kk].digest {
                        Some(d) => d.wf(),
                        None => true,
                    } by {
                        if kk > 0 {
                            assert(entries@[kk] == rest_view[kk - 1]);
                        }
                    }
                }
                Ok(entries)
            },
            Err(e) => Err(e),
        }
    } else {
        if k3 == s.len() || s[k3] == 35 {
            let mut entries: Vec<CommandSpec> = Vec::new();
            entries.push(entry);
            Ok(entries)
        } else {
            Err(ErrorKind::BadSyntax)
        }
    }
}

/// The command entries of a rule, starting with no tags in effect.
fn parse_command_entries(s: &Vec<u8>, i: usize) -> (r: Result<Vec<CommandSpec>, ErrorKind>)
    requires
        i <= s.len(),
    ensures
        r matches Ok(entries) ==> entries_digests_wf(entries@) && entries@.len() > 0
            && entries_ok(s@, i as int) && entries_val(s@, i as int, Seq::empty(), entries@),
        r is Err ==> !entries_ok(s@, i as int),
{
    let no_tags: Vec<Tag> = Vec::new();
    proof {
        assert(no_tags@ =~= Seq::<Tag>::empty());
    }
    entries_rec(s, i, no_tags)
}

/// A permission rule: user list, host list, `=`, an optional runas
/// clause, and the command entries.
fn parse_rule(s: &Vec<u8>, i: usize) -> (r: Result<Sudo, ErrorKind>)
    requires
        i <= s.len(),
    ensures
        r matches Ok(st) ==> (st matches Sudo::Spec(rule) && rule_digests_wf(rule) && rule_val(
            s@,
            i as int,
            rule,
        )) && rule_ok(s@, i as int),
        r is Err ==> !rule_ok(s@, i as int),
{
    let (users, p1) = match parse_user_list(s, i) {
        Ok(p) => p,
        Err(e) => {
            return Err(e);
        },
    };
    let (hosts, p2) = match parse_host_list(s, p1) {
        Ok(p) => p,
        Err(e) => {
            return Err(e);
        },
    };
    let p3 = skip_ws(s, p2);
    if !(p3 < s.len() && s[p3] == 61) {
        return Err(ErrorKind::BadSyntax);
    }
    let p4 = skip_ws(s, p3 + 1);
    let mut runas: Option<RunasSpec> = None;
    let mut pos = p4;
    if p4 < s.len() && s[p4] == 40 {
        match parse_runas(s, p4) {
            Ok((rs, q)) => {
                runas = Some(rs);
                pos = q;
            },
            Err(e) => {
                return Err(e);
            },
        }
    }
    let commands = match parse_command_entries(s, pos) {
        Ok(es) => es,
        Err(e) => {
            return Err(e);
        },
    };
    Ok(Sudo::Spec(PermissionRule { users, hosts, runas, commands }))
}

/// An alias definition body: the name, `=`, and the member list, which
/// must fill the rest of the line.
fn parse_decl(s: &Vec<u8>, i: usize, kind: u8) -> (r: Result<Sudo, ErrorKind>)
    requires
        i <= s.len(),
        kind == 0 || kind == 1 || kind == 2 || kind == 3,
    ensures
        r matches Ok(st) ==> ({
            &&& decl_ok(s@, i as int, kind)
            &&& st matches Sudo::Decl(d)
            &&& decl_val(s@, i as int, d)
            &&& match d {
                Directive::UserAlias(_) => kind == 0,
                Directive::HostAlias(_) => kind == 1,
                Directive::CmndAlias(_) => kind == 2,
                Directive::RunasAlias(_) => kind == 3,
            }
        }),
        r is Err ==> !decl_ok(s@, i as int, kind),
{
    let pos = skip_ws(s, i);
    let j = name_end(s, pos);
    if j == pos || !alias_shaped(s, pos, j) {
        return Err(ErrorKind::BadSyntax);
    }
    let name = sub_bytes(s, pos, j);
    let k = skip_ws(s, j);
    if !(k < s.len() && s[k] == 61) {
        return Err(ErrorKind::BadSyntax);
    }
    let body = k + 1;
    if kind == 0 || kind == 3 {
        let (members, q) = match parse_user_list(s, body) {
            Ok(p) => p,
            Err(e) => {
                return Err(e);
            },
        };
        if !rest_is_blank(s, q) {
            return Err(ErrorKind::BadSyntax);
        }
        let def = Def(name, members);
        if kind == 0 {
            return Ok(Sudo::Decl(Directive::UserAlias(def)));
        }
        return Ok(Sudo::Decl(Directive::RunasAlias(def)));
    }
    if kind == 1 {
        let (members, q) = match parse_host_list(s, body) {
            Ok(p) => p,
            Err(e) => {
                return Err(e);
            },
        };
        if !rest_is_blank(s, q) {
            return Err(ErrorKind::BadSyntax);
        }
        return Ok(Sudo::Decl(Directive::HostAlias(Def(name, members))));
    }
    let (members, q) = match parse_cmnd_list(s, body) {
        Ok(p) => p,
        Err(e) => {
            return Err(e);
        },
    };
    if !rest_is_blank(s, q) {
        return Err(ErrorKind::BadSyntax);
    }
    Ok(Sudo::Decl(Directive::CmndAlias(Def(name, members))))
}

/// The path of an `include`/`includedir` directive: one bare word or one
/// double-quoted string, with nothing else after it.
fn parse_include_path(s: &Vec<u8>, i: usize) -> (r: Result<Vec<u8>, ErrorKind>)
    requires
        i <= s.len(),
    ensures
        match r {
            Ok(path) => include_path_of(s@, i as int) == Some(path@),
            Err(_) => include_path_of(s@, i as int) is None,
        },
{
    let pos = skip_ws(s, i);
    if pos >= s.len() || s[pos] == 35 {
        return Err(ErrorKind::BadIncludeDirective);
    }
    if s[pos] == 34 {
        match read_quoted(s, pos) {
            Ok((path, q)) => {
                if rest_is_blank(s, q) {
                    return Ok(path);
                }
                return Err(ErrorKind::BadIncludeDirective);
            },
            Err(_) => {
                return Err(ErrorKind::BadIncludeDirective);
            },
        }
    }
    let m = cmd_end(s, pos);
    if m == pos {
        return Err(ErrorKind::BadIncludeDirective);
    }
    if !rest_is_blank(s, m) {
        return Err(ErrorKind::BadIncludeDirective);
    }
    Ok(sub_bytes(s, pos, m))
}

/// A recognized option directive: `Defaults name = value`.
fn parse_defaults(s: &Vec<u8>, i: usize) -> (r: Result<Sudo, ErrorKind>)
    requires
        i <= s.len(),
    ensures
        r matches Ok(st) ==> ({
            &&& defaults_ok(s@, i as int)
            &&& st matches Sudo::SetOption(n, v)
            &&& defaults_val(s@, i as int, n@, v@)
        }),
        r is Err ==> !defaults_ok(s@, i as int),
{
    let pos = skip_ws(s, i);
    let j = name_end(s, pos);
    if j == pos {
        return Err(ErrorKind::BadSyntax);
    }
    let name = sub_bytes(s, pos, j);
    let k = skip_ws(s, j);
    if !(k < s.len() && s[k] == 61) {
        return Err(ErrorKind::BadSyntax);
    }
    let v = skip_ws(s, k + 1);
    if v >= s.len() || s[v] == 35 {
        return Err(ErrorKind::BadSyntax);
    }
    if s[v] == 34 {
        match read_quoted(s, v) {
            Ok((value, q)) => {
                if rest_is_blank(s, q) {
                    return Ok(Sudo::SetOption(name, value));
                }
                return Err(ErrorKind::BadSyntax);
            },
            Err(e) => {
                return Err(e);
            },
        }
    }
    let m = cmd_end(s, v);
    if m == v {
        return Err(ErrorKind::BadSyntax);
    }
    if !rest_is_blank(s, m) {
        return Err(ErrorKind::BadSyntax);
    }
    Ok(Sudo::SetOption(name, sub_bytes(s, v, m)))
}

/// Parse one logical line into a statement, or into the line's error.
///
/// A blank line is a comment; a `#` at the start of the line opens a
/// comment unless a digit follows directly (a numeric user id) or the
/// line spells an `#include`/`#includedir` directive; `@include` and
/// `@includedir` are equivalent spellings. Any digest parsed into a rule
/// is well-formed: its byte count matches its algorithm.
pub fn parse_line(s: &Vec<u8>) -> (r: Result<Sudo, ErrorKind>)
    ensures
        (forall|k: int| 0 <= k < s@.len() ==> is_ws(s@[k])) ==> r == Ok::<Sudo, ErrorKind>(Sudo::LineComment),
        r == Ok::<Sudo, ErrorKind>(Sudo::LineComment) ==> (forall|k: int|
            0 <= k < s@.len() ==> is_ws(s@[k])) || comment_shaped(s@),
        r matches Ok(st) ==> (st matches Sudo::Spec(rule) ==> rule_digests_wf(rule)),
        r matches Ok(st) ==> (st matches Sudo::Include(p) ==> include_path_of(
            s@,
            name_run_end(s@, ws_end(s@, 0) + 1),
        ) == Some(p@)),
        r matches Ok(st) ==> (st matches Sudo::IncludeDir(p) ==> include_path_of(
            s@,
            name_run_end(s@, ws_end(s@, 0) + 1),
        ) == Some(p@)),
        r is Err <==> spec_line_kind(s@) is Bad,
        r matches Ok(st) ==> match st {
            Sudo::Spec(rule) => rule_val(s@, ws_end(s@, 0), rule),
            Sudo::Decl(d) => decl_val(s@, name_run_end(s@, ws_end(s@, 0)), d),
            Sudo::SetOption(n, v) => defaults_val(s@, name_run_end(s@, ws_end(s@, 0)), n@, v@),
            _ => true,
        },
        r matches Ok(st) ==> match st {
            Sudo::Spec(_) => spec_line_kind(s@) is Rule,
            Sudo::Decl(d) => match d {
                Directive::UserAlias(_) => spec_line_kind(s@) is DeclUser,
                Directive::HostAlias(_) => spec_line_kind(s@) is DeclHost,
                Directive::CmndAlias(_) => spec_line_kind(s@) is DeclCmnd,
                Directive::RunasAlias(_) => spec_line_kind(s@) is DeclRunas,
            },
            Sudo::Include(_) => spec_line_kind(s@) is Include,
            Sudo::IncludeDir(_) => spec_line_kind(s@) is IncludeDir,
            Sudo::LineComment => spec_line_kind(s@) is Comment,
            Sudo::SetOption(_, _) => spec_line_kind(s@) is Setting,
        },
{
    let i = skip_ws(s, 0);
    if i == s.len() {
        return Ok(Sudo::LineComment);
    }
    proof {
        assert(!is_ws(s@[i as int]));
    }
    if s[i] == 35 {
        proof {
            assert(comment_shaped(s@));
        }
        // `#`: a numeric user id, an include directive, or a comment
        if i + 1 < s.len() && 48 <= s[i + 1] && s[i + 1] <= 57 {
            return parse_rule(s, i);
        }
        let j = name_end(s, i + 1);
        let kw_include: Vec<u8> = vec![105u8, 110u8, 99u8, 108u8, 117u8, 100u8, 101u8];
        proof {
            assert(kw_include@ =~= kw_include_seq());
        }
        if word_is(s, i + 1, j, &kw_include) {
            match parse_include_path(s, j) {
                Ok(path) => {
                    return Ok(Sudo::Include(path));
                },
                Err(e) => {
                    return Err(e);
                },
            }
        }
        let kw_includedir: Vec<u8> = vec![105u8, 110u8, 99u8, 108u8, 117u8, 100u8, 101u8, 100u8, 105u8, 114u8];
        proof {
            assert(kw_includedir@ =~= kw_includedir_seq());
        }
        if word_is(s, i + 1, j, &kw_includedir) {
            match parse_include_path(s, j) {
                Ok(path) => {
                    return Ok(Sudo::IncludeDir(path));
                },
                Err(e) => {
                    return Err(e);
                },
            }
        }
        return Ok(Sudo::LineComment);
    }
    if s[i] == 64 {
        // `@include` / `@includedir`
        let j = name_end(s, i + 1);
        let kw_include: Vec<u8> = vec![105u8, 110u8, 99u8, 108u8, 117u8, 100u8, 101u8];
        proof {
            assert(kw_include@ =~= kw_include_seq());
        }
        if word_is(s, i + 1, j, &kw_include) {
            match parse_include_path(s, j) {
                Ok(path) => {
                    return Ok(Sudo::Include(path));
                },
                Err(e) => {
                    return Err(e);
                },
            }
        }
        let kw_includedir: Vec<u8> = vec![105u8, 110u8, 99u8, 108u8, 117u8, 100u8, 101u8, 100u8, 105u8, 114u8];
        proof {
            assert(kw_includedir@ =~= kw_includedir_seq());
        }
        if word_is(s, i + 1, j, &kw_includedir) {
            match parse_include_path(s, j) {
                Ok(path) => {
                    return Ok(Sudo::IncludeDir(path));
                },
                Err(e) => {
                    return Err(e);
                },
            }
        }
        return Err(ErrorKind::BadSyntax);
    }
    let j = name_end(s, i);
    if j > i {
        let kw_user_alias: Vec<u8> = vec![85u8, 115u8, 101u8, 114u8, 95u8, 65u8, 108u8, 105u8, 97u8, 115u8];
        proof {
            assert(kw_user_alias@ =~= kw_user_alias_seq());
        }
        if word_is(s, i, j, &kw_user_alias) {
            return parse_decl(s, j, 0);
        }
        let kw_host_alias: Vec<u8> = vec![72u8, 111u8, 115u8, 116u8, 95u8, 65u8, 108u8, 105u8, 97u8, 115u8];
        proof {
            assert(kw_host_alias@ =~= kw_host_alias_seq());
        }
        if word_is(s, i, j, &kw_host_alias) {
            return parse_decl(s, j, 1);
        }
        let kw_cmnd_alias: Vec<u8> = vec![67u8, 109u8, 110u8, 100u8, 95u8, 65u8, 108u8, 105u8, 97u8, 115u8];
        proof {
            assert(kw_cmnd_alias@ =~= kw_cmnd_alias_seq());
        }
        if word_is(s, i, j, &kw_cmnd_alias) {
            return parse_decl(s, j, 2);
        }
        let kw_cmd_alias: Vec<u8> = vec![67u8, 109u8, 100u8, 95u8, 65u8, 108u8, 105u8, 97u8, 115u8];
        proof {
            assert(kw_cmd_alias@ =~= kw_cmd_alias_seq());
        }
        if word_is(s, i, j, &kw_cmd_alias) {
            return parse_decl(s, j, 2);
        }
        let kw_runas_alias: Vec<u8> = vec![82u8, 117u8, 110u8, 97u8, 115u8, 95u8, 65u8, 108u8, 105u8, 97u8, 115u8];
        proof {
            assert(kw_runas_alias@ =~= kw_runas_alias_seq());
        }
        if word_is(s, i, j, &kw_runas_alias) {
            return parse_decl(s, j, 3);
        }
        let kw_defaults: Vec<u8> = vec![68u8, 101u8, 102u8, 97u8, 117u8, 108u8, 116u8, 115u8];
        proof {
            assert(kw_defaults@ =~= kw_defaults_seq());
        }
        if word_is(s, i, j, &kw_defaults) {
            return parse_defaults(s, j);
        }
    }
    parse_rule(s, i)
}

} // verus!
