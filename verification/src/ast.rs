//! The abstract syntax of the sudoers grammar.
//!
//! All names and patterns are byte strings: the configuration text is
//! consumed as bytes, and the engine never needs to interpret them as
//! anything richer. Every statement is built once by the parser and is
//! immutable thereafter.

use vstd::prelude::*;

verus! {

/// A polarity-qualified value: a leading `!` in the grammar flips
/// `Allow` to `Forbid` and back. Negation does not recurse into `T`.
#[derive(Clone, Debug, PartialEq, Eq)]
pub enum Qualified<T> {
    Allow(T),
    Forbid(T),
}

impl<T> Qualified<T> {
    /// Flip the polarity, leaving the wrapped value alone.
    pub fn neg(self) -> (r: Qualified<T>)
        ensures
            match self {
                Qualified::Allow(x) => r == Qualified::Forbid(x),
                Qualified::Forbid(x) => r == Qualified::Allow(x),
            },
    {
        match self {
            Qualified::Allow(x) => Qualified::Forbid(x),
            Qualified::Forbid(x) => Qualified::Allow(x),
        }
    }

    /// Is this an allowing assertion?
    pub fn is_allow(&self) -> (r: bool)
        ensures
            r == self is Allow,
    {
        match self {
            Qualified::Allow(_) => true,
            Qualified::Forbid(_) => false,
        }
    }
}

/// A meta-qualified specifier: the `ALL` keyword, a reference to a named
/// alias of the same kind, or a concrete value.
#[derive(Clone, Debug, PartialEq, Eq)]
pub enum Meta<T> {
    All,
    Alias(Vec<u8>),
    Only(T),
}

/// A list element of a user, host, runas or command list.
pub type Spec<T> = Qualified<Meta<T>>;

/// A user or group identity as it occurs in user lists, runas lists and
/// alias definitions: by name, by `%group`, by `#uid`, or by `%#gid`.
#[derive(Clone, Debug, PartialEq, Eq)]
pub enum UserSpecifier {
    User(Vec<u8>),
    Group(Vec<u8>),
    UserId(u32),
    GroupId(u32),
}

/// A command pattern: a path glob plus an optional argument glob.
///
/// `arguments == None` means no constraint on arguments at all;
/// `arguments == Some(v)` with `v` empty (from an explicit `""` in the
/// grammar) matches only the zero-length argument string.
#[derive(Clone, Debug, PartialEq, Eq)]
pub struct Command {
    pub pattern: Vec<u8>,
    pub arguments: Option<Vec<u8>>,
}

/// A per-command modifier, carried forward to subsequent comma-separated
/// entries of the same rule until reassigned.
#[derive(Clone, Copy, Debug, PartialEq, Eq, Structural)]
pub enum Tag {
    NoPasswd,
    Passwd,
}

/// The algorithm family of a command digest.
#[derive(Clone, Copy, Debug, PartialEq, Eq, Structural)]
pub enum DigestAlg {
    Sha224,
    Sha256,
    Sha384,
    Sha512,
}

impl DigestAlg {
    /// The exact number of digest bytes the algorithm produces.
    pub open spec fn spec_digest_len(self) -> int {
        match self {
            DigestAlg::Sha224 => 28,
            DigestAlg::Sha256 => 32,
            DigestAlg::Sha384 => 48,
            DigestAlg::Sha512 => 64,
        }
    }

    /// The exact number of digest bytes the algorithm produces.
    pub fn digest_len(self) -> (n: usize)
        ensures
            n == self.spec_digest_len(),
    {
        match self {
            DigestAlg::Sha224 => 28,
            DigestAlg::Sha256 => 32,
            DigestAlg::Sha384 => 48,
            DigestAlg::Sha512 => 64,
        }
    }
}

/// A cryptographic command digest: an algorithm tag and the decoded
/// digest bytes, whose length matches the algorithm exactly.
#[derive(Clone, Debug, PartialEq, Eq)]
pub struct Sha2 {
    pub alg: DigestAlg,
    pub bytes: Vec<u8>,
}

impl Sha2 {
    /// The length invariant enforced at construction and never at use.
    pub open spec fn wf(self) -> bool {
        self.bytes@.len() == self.alg.spec_digest_len()
    }
}

/// One command entry of a permission rule: the tags in effect at this
/// entry, the command pattern, and an optional required digest.
#[derive(Clone, Debug, PartialEq, Eq)]
pub struct CommandSpec {
    pub tags: Vec<Tag>,
    pub command: Spec<Command>,
    pub digest: Option<Sha2>,
}

/// The parenthesized runas clause of a rule.
///
/// `users == None` (as in `(:G)`) constrains the requested user to the
/// invoking user; `users == Some(empty)` (as in `()`) permits no identity
/// at all. `groups == None` (as in `(U)`) constrains the requested group
/// to a group of the requested user.
#[derive(Clone, Debug, PartialEq, Eq)]
pub struct RunasSpec {
    pub users: Option<Vec<Spec<UserSpecifier>>>,
    pub groups: Option<Vec<Spec<UserSpecifier>>>,
}

/// One permission rule: `users hosts = (runas) commands`.
///
/// `runas == None` means the rule carries no parenthesized clause, which
/// permits running only as the superuser.
#[derive(Clone, Debug, PartialEq, Eq)]
pub struct PermissionRule {
    pub users: Vec<Spec<UserSpecifier>>,
    pub hosts: Vec<Spec<Vec<u8>>>,
    pub runas: Option<RunasSpec>,
    pub commands: Vec<CommandSpec>,
}

/// A named alias definition: the name and its ordered member list.
#[derive(Clone, Debug, PartialEq, Eq)]
pub struct Def<T>(pub Vec<u8>, pub Vec<Spec<T>>);

/// An alias declaration, tagged by kind.
#[derive(Clone, Debug, PartialEq, Eq)]
pub enum Directive {
    UserAlias(Def<UserSpecifier>),
    HostAlias(Def<Vec<u8>>),
    CmndAlias(Def<Command>),
    RunasAlias(Def<UserSpecifier>),
}

/// One statement: the result of parsing one logical line.
#[derive(Clone, Debug, PartialEq, Eq)]
pub enum Sudo {
    Spec(PermissionRule),
    Decl(Directive),
    Include(Vec<u8>),
    IncludeDir(Vec<u8>),
    LineComment,
    SetOption(Vec<u8>, Vec<u8>),
}

/// Global parse-time options collected from recognized directives.
#[derive(Clone, Debug, PartialEq, Eq)]
pub struct Settings {
    pub secure_path: Option<Vec<u8>>,
}

impl Settings {
    /// Settings with nothing overridden.
    pub fn new() -> (s: Settings)
        ensures
            s.secure_path is None,
    {
        Settings { secure_path: None }
    }
}

/// What kind of syntax or alias error was found.
#[derive(Clone, Debug, PartialEq, Eq)]
pub enum ErrorKind {
    /// The line does not follow the grammar.
    BadSyntax,
    /// A digest literal has an odd length or a non-hex character.
    BadHex,
    /// A digest literal decodes to the wrong number of bytes.
    DigestLength,
    /// An `#include` or `#includedir` directive has extra tokens.
    BadIncludeDirective,
    /// Two alias definitions of one kind share this name.
    DuplicateAlias(Vec<u8>),
    /// The alias dependency graph has a cycle through this name.
    CyclicAlias(Vec<u8>),
}

/// A recorded error: the position (line number, or declaration index for
/// alias errors) and what was wrong there.
#[derive(Clone, Debug, PartialEq, Eq)]
pub struct Error(pub usize, pub ErrorKind);

} // verus!
