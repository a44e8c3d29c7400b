use sudoers::{
    analyze, check_permission, Authorization, Def, Directive, Error, ErrorKind, GroupRecord, Meta,
    Qualified, Request, Sudo, Sudoers, Tag, UserRecord, UserSpecifier,
};

fn dummy_cksum(name: &str) -> u32 {
    if name == "root" {
        0
    } else {
        1000 + name.chars().fold(0, |x, y| (x * 97 + y as u32) % 1361)
    }
}

fn named_user(name: &str) -> UserRecord {
    UserRecord {
        name: name.as_bytes().to_vec(),
        uid: dummy_cksum(name),
        groups: vec![name.as_bytes().to_vec()],
        gids: vec![dummy_cksum(name)],
    }
}

fn named_group(name: &str) -> GroupRecord {
    GroupRecord { gid: dummy_cksum(name), name: Some(name.as_bytes().to_vec()) }
}

fn analyze_lines(lines: &[&str]) -> (Sudoers, Vec<Error>) {
    let mut text = String::new();
    for l in lines {
        text.push_str(l);
        text.push('\n');
    }
    analyze(&text.into_bytes())
}

fn run_check(
    sudo_lines: &[&str],
    user: &str,
    req: (&str, &str),
    server: &str,
    command: &str,
) -> Option<Vec<Tag>> {
    let (sudoers, _) = analyze_lines(sudo_lines);
    let cmdvec: Vec<&str> = command.split_whitespace().collect();
    let request = Request {
        user: named_user(req.0),
        group: named_group(req.1),
        command: cmdvec[0].as_bytes().to_vec(),
        arguments: cmdvec[1..].join(" ").into_bytes(),
    };
    check_permission(&sudoers, &named_user(user), &server.as_bytes().to_vec(), &request)
}

fn passes(sudo_lines: &[&str], user: &str, req: (&str, &str), server: &str, command: &str) {
    let result = run_check(sudo_lines, user, req, server, command);
    assert!(!result.is_none());
}

fn fails(sudo_lines: &[&str], user: &str, req: (&str, &str), server: &str, command: &str) {
    let result = run_check(sudo_lines, user, req, server, command);
    assert_eq!(result, None);
}

fn syntax_error(line: &str) {
    let (_, errs) = analyze_lines(&[line]);
    assert!(!errs.is_empty());
}

#[test]
fn ambiguous_spec() {
    let line = "marc, User_Alias ALL = ALL".as_bytes().to_vec();
    let Ok(Sudo::Spec(_)) = sudoers::parse_line(&line) else {
        panic!()
    };
}

#[test]
fn permission_test() {
    let root = ("root", "root");

    syntax_error("ALL ALL = (;) ALL");
    fails(&["user ALL=(ALL:ALL) ALL"], "nobody", root, "server", "/bin/hello");
    passes(&["user ALL=(ALL:ALL) ALL"], "user", root, "server", "/bin/hello");
    passes(&["user ALL=(ALL:ALL) /bin/foo"], "user", root, "server", "/bin/foo");
    fails(&["user ALL=(ALL:ALL) /bin/foo"], "user", root, "server", "/bin/hello");
    passes(
        &["user ALL=(ALL:ALL) /bin/foo, NOPASSWD: /bin/bar"],
        "user",
        root,
        "server",
        "/bin/foo",
    );
    let result = run_check(
        &["user ALL=(ALL:ALL) /bin/foo, NOPASSWD: /bin/bar"],
        "user",
        root,
        "server",
        "/bin/bar",
    );
    assert_eq!(result, Some(vec![Tag::NoPasswd]));

    // a `#` inside a command-spec token is literal, not a comment
    // start: the pattern is the whole token, so the prefix alone no
    // longer matches
    fails(&["user ALL=/bin/e##o"], "user", root, "vm", "/bin/e");
    passes(&["user ALL=/bin/e##o"], "user", root, "vm", "/bin/e##o");
    {
        // a newline inside a command splits the line; the remainder is
        // a syntax error
        let (_, errs) = analyze_lines(&["ALL ALL=(ALL) /bin/", "/echo"]);
        assert!(!errs.is_empty());
    }

    passes(&["user server=(ALL:ALL) ALL"], "user", root, "server", "/bin/hello");
    fails(&["user laptop=(ALL:ALL) ALL"], "user", root, "server", "/bin/hello");

    passes(&["user ALL=!/bin/hello", "user ALL=/bin/hello"], "user", root, "server", "/bin/hello");
    fails(&["user ALL=/bin/hello", "user ALL=!/bin/hello"], "user", root, "server", "/bin/hello");

    for alias in ["User_Alias GROUP=user1, user2", "User_Alias GROUP=ALL,!user3"] {
        passes(&[alias, "GROUP ALL=/bin/hello"], "user1", root, "server", "/bin/hello");
        passes(&[alias, "GROUP ALL=/bin/hello"], "user2", root, "server", "/bin/hello");
        fails(&[alias, "GROUP ALL=/bin/hello"], "user3", root, "server", "/bin/hello");
    }
    passes(&["user ALL=/bin/hello arg"], "user", root, "server", "/bin/hello arg");
    passes(&["user ALL=/bin/hello  arg"], "user", root, "server", "/bin/hello arg");
    passes(&["user ALL=/bin/hello arg"], "user", root, "server", "/bin/hello  arg");
    fails(&["user ALL=/bin/hello arg"], "user", root, "server", "/bin/hello boo");
    passes(&["user ALL=/bin/hello a*g"], "user", root, "server", "/bin/hello  aaaarg");
    fails(&["user ALL=/bin/hello a*g"], "user", root, "server", "/bin/hello boo");
    passes(&["user ALL=/bin/hello"], "user", root, "server", "/bin/hello boo");
    fails(&["user ALL=/bin/hello \"\""], "user", root, "server", "/bin/hello boo");
    passes(&["user ALL=/bin/hello \"\""], "user", root, "server", "/bin/hello");
    passes(&["user ALL=/bin/hel*"], "user", root, "server", "/bin/hello");
    passes(&["user ALL=/bin/hel*"], "user", root, "server", "/bin/help");
    passes(&["user ALL=/bin/hel*"], "user", root, "server", "/bin/help me");
    passes(&["user ALL=/bin/hel* *"], "user", root, "server", "/bin/help");
    fails(&["user ALL=/bin/hel* me"], "user", root, "server", "/bin/help");
    passes(&["user ALL=/bin/hel* me"], "user", root, "server", "/bin/help me");
    fails(&["user ALL=/bin/hel* me"], "user", root, "server", "/bin/help me please");

    syntax_error("User_Alias, marc ALL = ALL");

    passes(
        &["User_Alias FULLTIME=ALL,!marc", "FULLTIME ALL=ALL"],
        "user",
        root,
        "server",
        "/bin/bash",
    );
    fails(
        &["User_Alias FULLTIME=ALL,!marc", "FULLTIME ALL=ALL"],
        "marc",
        root,
        "server",
        "/bin/bash",
    );
    fails(
        &["User_Alias FULLTIME=ALL,!marc", "ALL,!FULLTIME ALL=ALL"],
        "user",
        root,
        "server",
        "/bin/bash",
    );
    passes(
        &["User_Alias FULLTIME=ALL,!marc", "ALL,!FULLTIME ALL=ALL"],
        "marc",
        root,
        "server",
        "/bin/bash",
    );
    passes(
        &["Host_Alias MACHINE=laptop,server", "user MACHINE=ALL"],
        "user",
        root,
        "server",
        "/bin/bash",
    );
    passes(
        &["Host_Alias MACHINE=laptop,server", "user MACHINE=ALL"],
        "user",
        root,
        "laptop",
        "/bin/bash",
    );
    fails(
        &["Host_Alias MACHINE=laptop,server", "user MACHINE=ALL"],
        "user",
        root,
        "desktop",
        "/bin/bash",
    );
    passes(&["Cmnd_Alias WHAT=/bin/dd, /bin/rm", "user ALL=WHAT"], "user", root, "server", "/bin/rm");
    passes(&["Cmd_Alias WHAT=/bin/dd,/bin/rm", "user ALL=WHAT"], "user", root, "laptop", "/bin/dd");
    fails(&["Cmnd_Alias WHAT=/bin/dd,/bin/rm", "user ALL=WHAT"], "user", root, "desktop", "/bin/bash");

    passes(&["User_Alias A=B", "User_Alias B=user", "A ALL=ALL"], "user", root, "vm", "/bin/ls");
    passes(&["Host_Alias A=B", "Host_Alias B=vm", "ALL A=ALL"], "user", root, "vm", "/bin/ls");
    passes(&["Cmnd_Alias A=B", "Cmnd_Alias B=/bin/ls", "ALL ALL=A"], "user", root, "vm", "/bin/ls");

    fails(
        &["Runas_Alias TIME=%wheel,sudo", "user ALL=() ALL"],
        "user",
        ("sudo", "sudo"),
        "vm",
        "/bin/ls",
    );
    passes(
        &["Runas_Alias TIME=%wheel,sudo", "user ALL=(TIME) ALL"],
        "user",
        ("sudo", "sudo"),
        "vm",
        "/bin/ls",
    );
    fails(
        &["Runas_Alias TIME=%wheel,sudo", "user ALL=(:TIME) ALL"],
        "user",
        ("sudo", "sudo"),
        "vm",
        "/bin/ls",
    );
    passes(
        &["Runas_Alias TIME=%wheel,sudo", "user ALL=(:TIME) ALL"],
        "user",
        ("user", "sudo"),
        "vm",
        "/bin/ls",
    );
    passes(
        &["Runas_Alias TIME=%wheel,sudo", "user ALL=(TIME) ALL"],
        "user",
        ("wheel", "wheel"),
        "vm",
        "/bin/ls",
    );

    passes(
        &["Runas_Alias \\", " TIME=%wheel\\", ",sudo # hallo", "user ALL\\", "=(TIME) ALL"],
        "user",
        ("wheel", "wheel"),
        "vm",
        "/bin/ls",
    );
}

#[test]
#[should_panic]
fn invalid_directive() {
    let line = "User_Alias, user Alias = user1, user2".as_bytes().to_vec();
    sudoers::parse_line(&line).unwrap();
}

#[test]
fn directive_test() {
    let y = |name: &str| {
        Qualified::Allow(Meta::Only(UserSpecifier::User(name.as_bytes().to_vec())))
    };
    let line = "User_Alias HENK = user1, user2".as_bytes().to_vec();
    match sudoers::parse_line(&line) {
        Ok(Sudo::Decl(Directive::UserAlias(Def(name, list)))) => {
            assert_eq!(name, "HENK".as_bytes().to_vec());
            assert_eq!(list, vec![y("user1"), y("user2")]);
        }
        _ => panic!("incorrectly parsed"),
    }
}

fn parse_one(line: &str) -> Sudo {
    sudoers::parse_line(&line.as_bytes().to_vec()).unwrap()
}

#[test]
// the overloading of '#' causes a lot of issues
fn hashsign_test() {
    let Sudo::Spec(_) = parse_one("#42 ALL=ALL") else { panic!() };
    let Sudo::Spec(_) = parse_one("ALL ALL=(#42) ALL") else { panic!() };
    let Sudo::Spec(_) = parse_one("ALL ALL=(%#42) ALL") else { panic!() };
    let Sudo::Spec(_) = parse_one("ALL ALL=(:#42) ALL") else { panic!() };
    let Sudo::Decl(_) = parse_one("User_Alias FOO=#42, %#0, #3") else { panic!() };
    let Sudo::LineComment = parse_one("") else { panic!() };
    let Sudo::LineComment = parse_one("#this is a comment") else { panic!() };
    let Sudo::Include(_) = parse_one("#include foo") else { panic!() };
    let Sudo::IncludeDir(_) = parse_one("#includedir foo") else { panic!() };
    let Sudo::Include(x) = parse_one("#include \"foo bar\"") else { panic!() };
    assert_eq!(x, "foo bar".as_bytes().to_vec());
    // this is fine
    let Sudo::LineComment = parse_one("#inlcudedir foo") else { panic!() };
    let Sudo::Include(_) = parse_one("@include foo") else { panic!() };
    let Sudo::IncludeDir(_) = parse_one("@includedir foo") else { panic!() };
    let Sudo::Include(x) = parse_one("@include \"foo bar\"") else { panic!() };
    assert_eq!(x, "foo bar".as_bytes().to_vec());
}

#[test]
#[should_panic]
fn hashsign_error() {
    let Sudo::Include(_) = parse_one("#include foo bar") else {
        panic!()
    };
}

#[test]
#[should_panic]
fn include_regression() {
    let Sudo::Include(_) = parse_one("#4,#include foo") else {
        panic!()
    };
}

#[test]
fn negation_round_trip() {
    // forbidding then allowing leaves the command allowed; the reverse
    // order leaves it denied
    passes(
        &["user ALL=!/bin/hello", "user ALL=/bin/hello"],
        "user",
        ("root", "root"),
        "server",
        "/bin/hello",
    );
    fails(
        &["user ALL=/bin/hello", "user ALL=!/bin/hello"],
        "user",
        ("root", "root"),
        "server",
        "/bin/hello",
    );
}

#[test]
fn scenario_tags() {
    let rule = ["user ALL=(ALL:ALL) /bin/foo, NOPASSWD: /bin/bar"];
    let bar = run_check(&rule, "user", ("root", "root"), "server", "/bin/bar");
    assert_eq!(bar, Some(vec![Tag::NoPasswd]));
    let foo = run_check(&rule, "user", ("root", "root"), "server", "/bin/foo");
    assert_eq!(foo, Some(vec![]));
}

#[test]
fn duplicate_alias_rejected() {
    let (s, errs) = analyze_lines(&["User_Alias A=user1", "User_Alias A=user2"]);
    assert!(!errs.is_empty());
    // the unusable table leaves every reference unresolved
    assert!(s.aliases.user_aliases.is_empty());
}

#[test]
fn cyclic_alias_rejected() {
    let (s, errs) = analyze_lines(&["User_Alias A=B", "User_Alias B=A", "A ALL=ALL"]);
    assert!(!errs.is_empty());
    assert!(s.aliases.user_aliases.is_empty());
    let request = Request {
        user: named_user("root"),
        group: named_group("root"),
        command: b"/bin/ls".to_vec(),
        arguments: Vec::new(),
    };
    let r = check_permission(&s, &named_user("a"), &b"vm".to_vec(), &request);
    assert_eq!(r, None);
}

#[test]
fn secure_path_setting() {
    let (s, errs) = analyze_lines(&["Defaults secure_path = /usr/bin:/bin"]);
    assert!(errs.is_empty());
    assert_eq!(s.secure_path(), Some("/usr/bin:/bin".as_bytes().to_vec()));
    let (s2, _) = analyze_lines(&["user ALL=ALL"]);
    assert_eq!(s2.secure_path(), None);
}

#[test]
fn judgement_outcomes() {
    let (s, _) = analyze_lines(&["user ALL=(ALL:ALL) /bin/foo, NOPASSWD: /bin/bar"]);
    let mk = |cmd: &str| Request {
        user: named_user("root"),
        group: named_group("root"),
        command: cmd.as_bytes().to_vec(),
        arguments: Vec::new(),
    };
    let host = b"server".to_vec();
    let user = named_user("user");
    assert_eq!(s.check(&user, &host, &mk("/bin/bar")).authorization(), Authorization::Passed);
    assert_eq!(s.check(&user, &host, &mk("/bin/foo")).authorization(), Authorization::Required);
    assert_eq!(s.check(&user, &host, &mk("/bin/baz")).authorization(), Authorization::Forbidden);
}

#[test]
fn glob_semantics() {
    let m = |p: &str, t: &str| sudoers::glob_match(&p.as_bytes().to_vec(), &t.as_bytes().to_vec());
    assert!(m("", ""));
    assert!(!m("", "a"));
    assert!(m("*", ""));
    assert!(m("a*g", "aaaarg"));
    assert!(m("a*g", "ag"));
    assert!(!m("a*g", "agh"));
    assert!(m("/bin/hel*", "/bin/help"));
    assert!(!m("/bin/hel*", "/bin/he"));
    assert!(m("*a*", "bab"));
}

#[test]
fn last_match_wins_scenarios() {
    // among several applicable rules the last one decides, and its tags
    // are the ones returned
    let lines = [
        "user ALL = NOPASSWD: /bin/tool",
        "user ALL = !/bin/tool",
        "user ALL = /bin/tool",
    ];
    let r = run_check(&lines, "user", ("root", "root"), "host", "/bin/tool");
    assert_eq!(r, Some(vec![]));

    let lines2 = ["user ALL = /bin/tool", "user ALL = NOPASSWD: /bin/tool"];
    let r2 = run_check(&lines2, "user", ("root", "root"), "host", "/bin/tool");
    assert_eq!(r2, Some(vec![Tag::NoPasswd]));

    let lines3 = ["user ALL = NOPASSWD: /bin/tool", "user ALL = !/bin/tool"];
    let r3 = run_check(&lines3, "user", ("root", "root"), "host", "/bin/tool");
    assert_eq!(r3, None);
}

#[test]
fn alias_membership_equivalence() {
    // a rule through an alias admits exactly what the inlined member
    // list admits
    for who in ["a", "b", "c"] {
        let via_alias = run_check(
            &["User_Alias G = a, b", "G ALL=/bin/x"],
            who,
            ("root", "root"),
            "host",
            "/bin/x",
        );
        let inlined = run_check(&["a, b ALL=/bin/x"], who, ("root", "root"), "host", "/bin/x");
        assert_eq!(via_alias, inlined);
    }
    // excluding one member from ALL removes exactly that member
    for who in ["a", "b", "c"] {
        let r = run_check(
            &["User_Alias G = ALL, !b", "G ALL=/bin/x"],
            who,
            ("root", "root"),
            "host",
            "/bin/x",
        );
        assert_eq!(r.is_some(), who != "b");
    }
}

#[test]
fn error_kinds() {
    let (_, errs) = analyze_lines(&["User_Alias A=x", "User_Alias A=y"]);
    assert!(matches!(errs[0].1, ErrorKind::DuplicateAlias(_)));

    let (_, errs) = analyze_lines(&["User_Alias A=B", "User_Alias B=A"]);
    assert!(matches!(errs[0].1, ErrorKind::CyclicAlias(_)));

    let (_, errs) = analyze_lines(&["user ALL = sha256: abcd /bin/ls"]);
    assert_eq!(errs[0].1, ErrorKind::DigestLength);

    let (_, errs) = analyze_lines(&["user ALL = sha256: abcq /bin/ls"]);
    assert_eq!(errs[0].1, ErrorKind::BadHex);

    let (_, errs) = analyze_lines(&["#include foo bar"]);
    assert_eq!(errs[0].1, ErrorKind::BadIncludeDirective);

    let (_, errs) = analyze_lines(&["user ALL = (;) ALL"]);
    assert_eq!(errs[0].1, ErrorKind::BadSyntax);

    // errors carry the line they were found on
    let (_, errs) = analyze_lines(&["user ALL = /bin/ok", "!!", "user ALL = /bin/ok"]);
    assert_eq!(errs[0].0, 2);
}
