use simplicityhl::blank::blank_version_directive;
use simplicityhl::directive::{leading_directives, scan_directive, DirectiveScan};
use simplicityhl::error::Error;
use simplicityhl::requirement::{Op, Version, VersionReq, VersionRequirement};
use simplicityhl::version::{
    check, current_version, directive_for, malformed_directive_message, missing_directive_warning,
    requirement_of, DirectiveError, DIRECTIVE_PREFIX, DIRECTIVE_SUFFIX,
};

/// `matches` accepts or rejects requirements against the running compiler,
/// exercising the pre-release normalization in `effective_version`: a release
/// range still accepts the pre-release compiler, but semver pre-release gating
/// (and reordered compound ranges) still bite. `0.6.0-rc.0` stands in for the
/// compiler.
#[test]
fn matches_respects_operators_and_prerelease() {
    let cur = Version::parse("0.6.0-rc.0").unwrap();
    let accepted = [
        "*",
        "0.6.0",
        "^0.6.0",
        "~0.6.0",
        ">=0.6.0",
        ">0.1.0",
        "=0.6.0-rc.0",
        "^0.6.0-rc.0",
    ];
    let rejected = [
        "=0.5.0",
        ">99.0.0",
        "<0.0.1",
        "<0.6.0",          // -rc tag stripped, so 0.6.0 is not < 0.6.0
        ">=0.1.0-alpha.1", // pre-release gating: different base, so no match
        ">=0.7.0, =0.6.0", // the `=0.6.0` must not rescue the failing `>=0.7.0`
    ];
    for req in accepted {
        let req = VersionRequirement::parse(req).unwrap();
        assert!(req.matches(&cur), "`{req:?}` should match {cur:?}");
    }
    for req in rejected {
        let parsed = VersionRequirement::parse(req).unwrap();
        assert!(!parsed.matches(&cur), "`{req}` should not match {cur:?}");
    }
}

#[test]
fn malformed_leading_directive_is_syntax_error_not_missing() {
    // A directive attempt with a missing semicolon or closing quote is a syntax
    // error, not an absent directive.
    for src in [
        "simc \"=0.5.0\"\nfn main() {}",
        "simc \"=0.5.0\nfn main() {}",
    ] {
        let (err, _span) = check(src).unwrap_err();
        assert!(
            matches!(err, Error::InvalidSimcVersionSyntax { .. }),
            "{src:?}"
        );
    }
}

#[test]
fn misplaced_or_extra_directive_is_reported_not_leaked() {
    // A well-formed directive after program code is misplaced (it must be the first
    // item), reported here, not handed to the parser as a stray `simc` token.
    let misplaced = "use foo;\nsimc \"*\";";
    assert!(matches!(check(misplaced).unwrap_err().0, Error::Syntax { .. }));
    assert_eq!(requirement_of(misplaced), Err(DirectiveError::Misplaced));

    // A malformed *second* directive (before any code) is a syntax error, not a
    // silently ignored extra line.
    let bad_second = "simc \"*\";\nsimc \"bad\nfn main() {}";
    assert!(matches!(
        check(bad_second).unwrap_err().0,
        Error::InvalidSimcVersionSyntax { .. }
    ));
    assert!(matches!(
        requirement_of(bad_second),
        Err(DirectiveError::InvalidSyntax(_))
    ));
}

#[test]
fn directive_scanned_through_leading_comments() {
    // The directive is the first *meaningful* item: leading `//` lines, blank
    // lines, and `/* */` blocks (multi-line or inline) are skipped, and the span
    // still lands exactly on `simc "...";` because offsets keep counting through
    // the skipped text. `*` matches any compiler, so this stays version-bump proof.
    for src in [
        "// header\n// notes\n\n/* a block\n   comment */\nsimc \"*\";\nfn main() {}",
        "/* lead */ simc \"*\";\nfn main() {}",
    ] {
        assert!(
            check(src).is_ok(),
            "should accept directive after comments: {src:?}"
        );
        let DirectiveScan::Found { req, span } = scan_directive(src) else {
            panic!("directive found past the comments: {src:?}");
        };
        assert_eq!(req, "*", "{src:?}");
        assert_eq!(
            &src[span.start..span.end],
            "simc \"*\";",
            "span must cover the directive in {src:?}"
        );
    }

    // A commented-out directive does not count; the real one after it does.
    let commented = "// simc \"=99.0.0\";\nsimc \"*\";\nfn main() {}";
    let DirectiveScan::Found { req, .. } = scan_directive(commented) else {
        panic!("real directive after the commented-out one");
    };
    assert_eq!(req, "*");
}

#[test]
fn requirement_of_reads_or_rejects_directive() {
    // `req()` exposes the underlying semver requirement for range-intersecting tooling.
    let parsed = requirement_of("simc \">=0.1.0\";\nfn main() {}")
        .unwrap()
        .expect("directive present");
    assert_eq!(parsed.req(), &VersionReq::parse(">=0.1.0").unwrap());
    assert_eq!(requirement_of("fn main() {}"), Ok(None));
    assert!(matches!(
        requirement_of("simc \"not-a-version\";\nfn main() {}"),
        Err(DirectiveError::InvalidSyntax(_))
    ));
    // A malformed directive is a syntax error here too, not silently "absent",
    // so tooling and the compiler agree (the missing semicolon below).
    assert!(matches!(
        requirement_of("simc \"=0.1.0\"\nfn main() {}"),
        Err(DirectiveError::InvalidSyntax(_))
    ));
    // Duplicates are only reachable through this external entry point.
    assert_eq!(
        requirement_of("simc \"=0.1.0\";\nsimc \"=0.2.0\";\nfn main() {}"),
        Err(DirectiveError::Duplicate)
    );
}

#[test]
fn the_compiler_version_is_a_version() {
    let version = Version::parse(current_version()).unwrap();
    assert_eq!((version.major, version.minor, version.patch), (0, 6, 0));
    assert_eq!(version.pre, "rc.0");
    assert_eq!(version.build, "");
}

#[test]
fn versions_are_read_whole() {
    let v = Version::parse("1.20.300-alpha.1.x-y+build.007").unwrap();
    assert_eq!((v.major, v.minor, v.patch), (1, 20, 300));
    assert_eq!(v.pre, "alpha.1.x-y");
    assert_eq!(v.build, "build.007");
    assert_eq!(v.clone(), v);
    for bad in [
        "", "1", "1.2", "1.2.3.4", "01.2.3", "1.2.3-", "1.2.3-01", "1.2.3+", "1.2.3-a..b", "v1.2.3",
        " 1.2.3", "18446744073709551616.0.0",
    ] {
        assert!(Version::parse(bad).is_err(), "{bad:?}");
    }
    assert_eq!(
        Version::parse("1.q.r").unwrap_err(),
        "unexpected character 'q' while parsing minor version number"
    );
}

#[test]
fn comparators_are_read_as_they_are_spelled() {
    for (text, op) in [
        ("=1.2.3", Op::Exact),
        (">1.2.3", Op::Greater),
        (">=1.2.3", Op::GreaterEq),
        ("<1.2.3", Op::Less),
        ("<=1.2.3", Op::LessEq),
        ("~1.2.3", Op::Tilde),
        ("^1.2.3", Op::Caret),
        ("1.2.3", Op::Caret),
    ] {
        let req = VersionReq::parse(text).unwrap();
        assert_eq!(req.comparators.len(), 1, "{text}");
        let c = &req.comparators[0];
        assert_eq!(c.op, op, "{text}");
        assert_eq!(
            (c.major, c.minor, c.patch),
            (1, Some(2), Some(3)),
            "{text}"
        );
        assert_eq!(c.pre, "", "{text}");
    }
    let req = VersionReq::parse("1.2.*").unwrap();
    assert_eq!(req.comparators[0].op, Op::Wildcard);
    assert_eq!(req.comparators[0].patch, None);
    let req = VersionReq::parse("^1.2.3-rc.1").unwrap();
    assert_eq!(req.comparators[0].pre, "rc.1");
    assert_eq!(VersionReq::parse("*").unwrap().comparators.len(), 0);
    assert_eq!(
        VersionReq::parse(">=0.6.0, <1.0.0").unwrap().comparators.len(),
        2
    );
    assert_eq!(
        VersionRequirement::parse("foo").unwrap_err(),
        "unexpected character 'f' while parsing major version number"
    );
}

#[test]
fn spaces_and_wildcards_count_for_nothing() {
    let parse = |text: &str| VersionReq::parse(text).unwrap().comparators;
    for (text, same) in [
        (">= 99.99.99", ">=99.99.99"),
        ("^   0.6.0-rc.0", "^0.6.0-rc.0"),
        (">=1.*", ">=1"),
        ("< 1.2.x", "<1.2"),
        ("~1.X.x", "~1"),
        ("1.x", "1.*"),
        ("1.*.X", "1.*"),
    ] {
        assert_eq!(parse(text), parse(same), "{text}");
    }
    for text in ["*", "x", "X"] {
        assert!(parse(text).is_empty());
    }
    assert_eq!(parse("1.*")[0].op, Op::Wildcard);
    assert_eq!((parse("1.2.*")[0].minor, parse("1.2.*")[0].patch), (Some(2), None));
}

#[test]
fn a_pre_release_and_its_own_version() {
    let v = Version::parse("1.2.3-rc.1").unwrap();
    for (op, taken) in [
        ("=", true),
        (">", false),
        (">=", true),
        ("<", false),
        ("<=", true),
        ("~", true),
        ("^", true),
        ("", true),
    ] {
        let req = VersionReq::parse(&format!("{op}1.2.3-rc.1")).unwrap();
        assert_eq!(req.matches(&v), taken, "{op}");
    }
    let v = Version::parse("0.0.0-a").unwrap();
    assert!(VersionReq::parse("^0.0.0-a").unwrap().matches(&v));
}

#[test]
fn operators_bound_releases() {
    // Each range with versions that it takes and versions that it does not.
    let cases: [(&str, &[&str], &[&str]); 14] = [
        ("=1.2.3", &["1.2.3"], &["1.2.4", "1.2.2"]),
        ("=1.2", &["1.2.0", "1.2.9"], &["1.3.0", "1.1.9"]),
        ("=1", &["1.0.0", "1.9.9"], &["2.0.0", "0.9.9"]),
        (">1.2", &["1.3.0", "2.0.0"], &["1.2.9"]),
        (">1.2.3", &["1.2.4"], &["1.2.3"]),
        (">=1.2", &["1.2.0"], &["1.1.9"]),
        ("<1.2", &["1.1.9"], &["1.2.0"]),
        ("<=1.2", &["1.2.9"], &["1.3.0"]),
        ("~0.6", &["0.6.0", "0.6.7"], &["0.7.0", "0.5.9"]),
        ("~1", &["1.0.0", "1.9.0"], &["2.0.0"]),
        ("^0.6.0", &["0.6.0", "0.6.1"], &["0.7.0", "0.5.9"]),
        ("^0.0.3", &["0.0.3"], &["0.0.4", "0.0.2"]),
        ("0.x.x", &["0.0.0", "0.9.9"], &["1.0.0"]),
        (">=0.6.0, <1.0.0", &["0.6.0", "0.99.0"], &["1.0.0", "0.5.9"]),
    ];
    for (range, taken, left) in cases {
        let req = VersionRequirement::parse(range).unwrap();
        for v in taken {
            let v = Version::parse(v).unwrap();
            assert!(req.matches(&v), "{range} should take {v:?}");
        }
        for v in left {
            let v = Version::parse(v).unwrap();
            assert!(!req.matches(&v), "{range} should not take {v:?}");
        }
    }
}

#[test]
fn a_release_range_ignores_the_tag_and_a_tagged_one_does_not() {
    let rc = Version::parse("0.6.0-rc.0").unwrap();
    let plain = VersionRequirement::parse(">=0.6.0").unwrap();
    assert_eq!(plain.effective_version(&rc).pre, "");
    assert!(plain.matches(&rc));
    assert!(!plain.req().matches(&rc));
    let tagged = VersionRequirement::parse(">=0.6.0-alpha").unwrap();
    assert_eq!(tagged.effective_version(&rc), rc);
    assert!(tagged.matches(&rc));
    let other_base = VersionRequirement::parse(">=0.5.0-alpha").unwrap();
    assert!(!other_base.matches(&rc));
    let pinned = VersionRequirement::parse("=0.6.0-rc.1").unwrap();
    assert!(!pinned.matches(&rc));
    assert!(pinned.clone().matches(&Version::parse("0.6.0-rc.1+b").unwrap()));
}

#[test]
fn check_reports_where_and_what() {
    assert_eq!(directive_for("1.2.3"), "simc \"1.2.3\";");
    assert_eq!(DIRECTIVE_PREFIX, "simc \"");
    assert_eq!(DIRECTIVE_SUFFIX, "\";");
    assert_eq!(
        malformed_directive_message(),
        "malformed compiler version directive; expected `simc \"<version>\";`"
    );

    let (err, span) = check("\n simc \" >=99 \"; \nfn main() {}").unwrap_err();
    assert_eq!((span.start, span.end), (2, 16));
    let Error::SimcVersionMismatch { required, current } = err else {
        panic!("mismatch expected");
    };
    assert_eq!(required, ">=99");
    assert_eq!(current, "0.6.0-rc.0");

    let (err, span) = check("simc 1.0;  \nfn main() {}").unwrap_err();
    assert_eq!((span.start, span.end), (0, 9));
    assert_eq!(
        err.to_string(),
        "Invalid version syntax: malformed compiler version directive; expected `simc \"<version>\";`"
    );

    let (err, span) = check("simc \"*\";\n simc \"*\";").unwrap_err();
    assert_eq!((span.start, span.end), (11, 20));
    assert_eq!(
        err.to_string(),
        "Expected 'Exactly one compiler version directive', found 'Multiple directives'"
    );

    let (err, span) = check("fn main() {}\nsimc \"*\";").unwrap_err();
    assert_eq!((span.start, span.end), (13, 22));
    assert_eq!(
        err.to_string(),
        "Expected 'the `simc` directive to be the first item in the file', \
         found 'a compiler version directive after program code'"
    );

    // After code, a line that only looks like a directive is left to the parser.
    assert!(check("fn main() {}\nsimc foo").is_ok());
    // A longer word is no directive.
    assert!(check("simcity \"99\";").is_ok());
    assert!(matches!(scan_directive("simc"), DirectiveScan::Malformed(_)));
}

#[test]
fn a_missing_directive_is_warned_about() {
    assert_eq!(
        missing_directive_warning("fn main() {}"),
        Some(
            "no compiler version directive; consider adding `simc \"0.6.0-rc.0\";`".to_string()
        )
    );
    assert_eq!(missing_directive_warning("simc \"*\";"), None);
    assert_eq!(missing_directive_warning("simc \"*\""), None);
    assert_eq!(missing_directive_warning("fn f() {}\nsimc \"*\";"), None);
}

#[test]
fn check_and_declaration_agree() {
    for src in [
        "fn main() {}",
        "simc \"*\";",
        "simc \">99.0.0\";",
        "simc \"foo\";",
        "simc foo",
        "simc \"*\"; \nsimc \"*\";",
        "x\nsimc \"*\";",
        "/* simc \"1\"; */",
    ] {
        let checked = check(src);
        match requirement_of(src) {
            Ok(None) => assert!(checked.is_ok(), "{src:?}"),
            Ok(Some(req)) => assert_eq!(
                checked.is_ok(),
                req.matches(&Version::parse(current_version()).unwrap()),
                "{src:?}"
            ),
            Err(_) => assert!(checked.is_err(), "{src:?}"),
        }
    }
}

#[test]
fn blanking_keeps_offsets() {
    let src = "// é\nsimc \"*\"; fn main() {}\n";
    let blanked = blank_version_directive(src);
    assert_eq!(&*blanked, "// é\n          fn main() {}\n");
    assert_eq!(blanked.len(), src.len());

    // Duplicates are blanked too, and so are requirements with wide characters.
    let src = "simc \"é\";\nsimc \"2\";\nfn main() {}";
    let blanked = blank_version_directive(src);
    assert_eq!(
        &*blanked,
        "          \n         \nfn main() {}"
    );
    assert_eq!(blanked.len(), src.len());

    // Without a directive, the text stays as it is; a directive after code is left alone.
    assert_eq!(&*blank_version_directive("fn main() {}"), "fn main() {}");
    let late = "fn main() {}\nsimc \"*\";";
    assert_eq!(&*blank_version_directive(late), late);
    // A file that holds nothing else is the empty program.
    assert_eq!(&*blank_version_directive(" simc \"*\"; \n\n"), "");
}

#[test]
fn leading_directives_stop_at_code() {
    let src = "simc \"1\";\n// c\nsimc \"2\";\nfn main() {}\nsimc \"3\";";
    let found: Vec<&str> = leading_directives(src).iter().map(|(req, _)| *req).collect();
    assert_eq!(found, ["1", "2"]);
}

#[test]
fn white_space_is_allowed_around_the_requirement() {
    let src = "\tsimc\u{a0} \"*\"\u{2003};rest";
    let DirectiveScan::Found { req, span } = scan_directive(src) else {
        panic!("directive expected");
    };
    assert_eq!(req, "*");
    assert_eq!(&src[span.start..span.end], "simc\u{a0} \"*\"\u{2003};");
    // No white space is needed before the quote, but a new line ends the line.
    assert!(matches!(
        scan_directive("simc\"*\";"),
        DirectiveScan::Found { .. }
    ));
    assert!(matches!(
        scan_directive("simc\n\"*\";"),
        DirectiveScan::Malformed(_)
    ));
}

#[test]
fn items_share_lines() {
    // A second directive is one wherever it stands.
    for src in [
        "simc \"*\"; simc \"*\";\nfn main() {}",
        "simc \"*\";simc \"*\";",
        "simc \"*\"; /* c */ simc \"*\";",
        "simc \"*\"; /* c\n*/ simc \"*\"; // d",
        "simc \"*\"; fn main() {} simc \"*\";",
    ] {
        assert!(
            matches!(check(src).unwrap_err().0, Error::Syntax { .. }),
            "{src:?}"
        );
        assert_eq!(requirement_of(src), Err(DirectiveError::Duplicate), "{src:?}");
        let DirectiveScan::Duplicate(span) = scan_directive(src) else {
            panic!("duplicate expected: {src:?}");
        };
        assert_eq!(span.start, src.rfind("simc").unwrap(), "{src:?}");
    }
    // Nor does code hide one that follows it on its line.
    for src in [
        "fn main() {} simc \"*\";",
        "fn main() {}simc \"*\";",
        "fn main() { /* c */ simc \"*\"; }",
        "fn main() {} /* c\n*/ simc \"*\";",
    ] {
        assert_eq!(requirement_of(src), Err(DirectiveError::Misplaced), "{src:?}");
    }
    // What is broken right behind a directive is a syntax error.
    assert!(matches!(
        scan_directive("simc \"*\"; simc foo"),
        DirectiveScan::Malformed(_)
    ));
    // A word that only ends like the keyword is no directive.
    for src in ["fn main() {} notsimc \"*\";", "x_simc \"*\";", "ésimc \"*\";"] {
        assert!(matches!(scan_directive(src), DirectiveScan::Absent), "{src:?}");
    }
}

#[test]
fn comments_are_followed_through_code() {
    // A directive in a comment that opens after code does not count.
    for src in [
        "fn main() { /*\nsimc \"*\";\n*/ }",
        "fn main() { // simc \"*\";\n}",
        "fn main() {} /* simc \"*\"; */",
        "a/b /* simc \"*\"; */ // */ simc \"*\";",
    ] {
        assert!(check(src).is_ok(), "{src:?}");
        assert_eq!(requirement_of(src), Ok(None), "{src:?}");
    }
    let src = "simc \"*\"; /*\nsimc \"*\";\n*/ fn main() {}";
    assert!(check(src).is_ok());
    assert_eq!(
        &*blank_version_directive(src),
        "          /*\nsimc \"*\";\n*/ fn main() {}"
    );
    // The quoted text of a directive opens no comment.
    let src = "simc \"/*\"; simc \"*\";";
    assert_eq!(requirement_of(src), Err(DirectiveError::Duplicate));
    // A file in which a directive was found declares nothing once it is blanked.
    for src in [
        "simc \"*\"; fn main() {}",
        "/* c */ simc \"é\"; fn main() {}",
        "simc \"1\";",
    ] {
        assert_eq!(requirement_of(&blank_version_directive(src)), Ok(None), "{src:?}");
    }
}

#[test]
fn comments_nest_as_lines_do() {
    // A block comment may end and another begin on one line.
    assert!(matches!(
        scan_directive("/* a */ /* b\n*/ // x\n/**/simc \"*\";"),
        DirectiveScan::Found { .. }
    ));
    // A directive inside a block comment does not count, nor does one in a line comment.
    assert!(matches!(
        scan_directive("/*\nsimc \"*\";\n*/"),
        DirectiveScan::Absent
    ));
    // A line that ends inside a block comment does not count.
    assert!(matches!(
        scan_directive("/* open simc \"*\";"),
        DirectiveScan::Absent
    ));
    assert!(matches!(scan_directive(""), DirectiveScan::Absent));
}

/// The first release at or above the bounds of a comparator, and the first above it.
fn bounds(
    op: Op,
    major: u64,
    minor: Option<u64>,
    patch: Option<u64>,
    tagged: bool,
) -> ((u64, u64, u64), Option<(u64, u64, u64)>) {
    let first = (major, minor.unwrap_or(0), patch.unwrap_or(0));
    let after = match (minor, patch) {
        (Some(minor), Some(patch)) if tagged => (major, minor, patch),
        (Some(minor), Some(patch)) => (major, minor, patch + 1),
        (Some(minor), None) => (major, minor + 1, 0),
        (None, _) => (major + 1, 0, 0),
    };
    match op {
        Op::Greater => (after, None),
        Op::GreaterEq => (first, None),
        Op::Less => ((0, 0, 0), Some(first)),
        Op::LessEq => ((0, 0, 0), Some(after)),
        Op::Exact | Op::Wildcard => (first, Some(after)),
        Op::Tilde => match minor {
            Some(minor) => (first, Some((major, minor + 1, 0))),
            None => (first, Some((major + 1, 0, 0))),
        },
        Op::Caret => match (minor, patch) {
            (Some(0), Some(patch)) if major == 0 => (first, Some((0, 0, patch + 1))),
            (Some(minor), _) if major == 0 => (first, Some((0, minor + 1, 0))),
            _ => (first, Some((major + 1, 0, 0))),
        },
    }
}

#[test]
fn releases_are_taken_within_the_bounds() {
    let ops = [
        ("=", Op::Exact),
        (">", Op::Greater),
        (">=", Op::GreaterEq),
        ("<", Op::Less),
        ("<=", Op::LessEq),
        ("~", Op::Tilde),
        ("^", Op::Caret),
    ];
    let mut cases: Vec<(String, Op, u64, Option<u64>, Option<u64>, bool)> = Vec::new();
    for a in 0..3 {
        cases.push((format!("{a}.*"), Op::Wildcard, a, None, None, false));
        for (text, op) in ops {
            cases.push((format!("{text}{a}"), op, a, None, None, false));
        }
        for b in 0..3 {
            cases.push((format!("{a}.{b}.*"), Op::Wildcard, a, Some(b), None, false));
            for (text, op) in ops {
                cases.push((format!("{text}{a}.{b}"), op, a, Some(b), None, false));
                for c in 0..3 {
                    let full = format!("{text}{a}.{b}.{c}");
                    cases.push((format!("{full}-rc.1"), op, a, Some(b), Some(c), true));
                    cases.push((full, op, a, Some(b), Some(c), false));
                }
            }
        }
    }
    for (text, op, major, minor, patch, tagged) in cases {
        let req = VersionReq::parse(&text).unwrap();
        assert_eq!(req.comparators.len(), 1, "{text}");
        let c = &req.comparators[0];
        assert_eq!(
            (c.op, c.major, c.minor, c.patch, c.pre.is_empty()),
            (op, major, minor, patch, !tagged),
            "{text}"
        );
        let (low, high) = bounds(op, major, minor, patch, tagged);
        for a in 0..4 {
            for b in 0..4 {
                for c in 0..4 {
                    let v = Version::parse(&format!("{a}.{b}.{c}")).unwrap();
                    let within = low <= (a, b, c) && high.map_or(true, |high| (a, b, c) < high);
                    assert_eq!(req.matches(&v), within, "{text} {a}.{b}.{c}");
                }
            }
        }
    }
}

#[test]
fn a_pre_release_is_taken_only_by_its_base() {
    let v = Version::parse("1.2.3-rc.1").unwrap();
    for (text, taken) in [
        ("=1.2.3-rc.1", true),
        ("=1.2.3-rc.2", false),
        ("=1.2.3", false),
        (">=1.2.3-rc.0", true),
        (">=1.2.3-rc.2", false),
        (">=1.2.2-rc.0", false),
        (">=1.2.0, <1.2.3-rc.2", true),
        ("*", false),
    ] {
        assert_eq!(VersionReq::parse(text).unwrap().matches(&v), taken, "{text}");
    }
}

#[test]
fn a_written_directive_is_read_back() {
    for version in ["1.2.3", "*", ">=0.6.0, <1.0.0", "not a version", ""] {
        let src = directive_for(version) + "\nfn main() {}";
        let DirectiveScan::Found { req, span } = scan_directive(&src) else {
            panic!("directive expected");
        };
        assert_eq!(req, version);
        assert_eq!((span.start, span.end), (0, version.len() + 8));
    }
    // To follow the advice for a file without a directive satisfies the check.
    assert!(check(&(directive_for(current_version()) + "\nfn main() {}")).is_ok());
}

#[test]
fn lists_of_comparators_are_read_one_after_the_other() {
    let parse = |text: &str| VersionReq::parse(text).unwrap().comparators;
    assert_eq!(parse("  >=1.2"), parse(">=1.2"));
    let mut both = parse(">=0.6.0");
    both.extend(parse(" <1"));
    assert_eq!(parse(">=0.6.0, <1"), both);
    assert_eq!(parse("^0.6.0-rc.0")[0].clone(), parse("0.6.0-rc.0")[0]);
    let list = |n: usize| vec!["1.2.3"; n].join(",");
    assert_eq!(parse(&list(32)).len(), 32);
    assert!(VersionReq::parse(&list(33)).is_err());
    assert!(VersionReq::parse("*, 1").is_err());
}
