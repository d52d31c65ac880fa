use std::collections::HashSet;
use std::sync::Arc;

use simplicityhl::error::{Error, ErrorCollector, Span};
use simplicityhl::source::SourceFile;
use simplicityhl::unstable::{Either, FeatureRequirement, RequireFeature};
use simplicityhl::{UnstableFeature, UnstableFeatures};

#[test]
fn test_feature_display() {
    for feature in UnstableFeature::all() {
        let name = feature.to_string();
        assert!(!name.is_empty());
        assert!(!name.contains(' '));
    }
}

#[test]
fn test_feature_descriptions() {
    for feature in UnstableFeature::all() {
        assert!(!feature.description().is_empty());
    }
}

#[test]
fn all_contains_every_variant() {
    let all_features = UnstableFeature::all();

    // When you add a variant to `UnstableFeature`, bump this count and add
    // the variant to `all()`. Pins that `all()` stays complete.
    assert_eq!(
        all_features.len(),
        1,
        "update this count when adding a feature"
    );

    let mut unique = HashSet::new();
    for feature in all_features {
        assert!(
            unique.insert(*feature),
            "Features in all() should be unique"
        );
    }
}

#[test]
fn test_feature_from_str() {
    for feature in UnstableFeature::all() {
        let parsed = feature
            .to_string()
            .parse::<UnstableFeature>()
            .expect("Should parse from string");
        assert_eq!(*feature, parsed);
    }
}

#[test]
fn test_no_features_enabled_by_default() {
    let features = UnstableFeatures::none();
    for feature in UnstableFeature::all() {
        assert!(!features.is_enabled(*feature));
    }
    assert_eq!(UnstableFeatures::default(), features);
}

#[test]
fn test_new_single() {
    let Some(&feature) = UnstableFeature::all().first() else {
        return;
    };
    let features = UnstableFeatures::new(vec![feature]);
    assert!(features.is_enabled(feature));
}

#[test]
fn test_all_features_enabled() {
    let features = UnstableFeatures::all();
    for feature in UnstableFeature::all() {
        assert!(features.is_enabled(*feature));
    }
}

/// A synthetic node that requires exactly one feature, for testing the
/// check mechanism independently of any concrete syntax.
struct Requires(UnstableFeature);

impl RequireFeature for Requires {
    fn feature_requirements(&self, out: &mut Vec<FeatureRequirement>) {
        out.push(FeatureRequirement::new(self.0, Span::new(0, 3)));
    }
}

#[test]
fn test_check_program_rejects_each_disabled_feature() {
    // For every feature that exists, a node requiring it
    // is rejected when no features are enabled, and the error names that
    // feature and points at the `-Z` flag.
    for &feature in UnstableFeature::all() {
        let mut handler = ErrorCollector::new();
        let source = SourceFile::anonymous(Arc::from("x"));
        UnstableFeatures::none().check_program(&Requires(feature), &source, &mut handler);

        let error = handler.to_string();
        assert!(
            error.contains(&feature.to_string()),
            "error should name the feature `{}`: {error}",
            feature.to_string()
        );
        assert!(error.contains("not enabled"), "{error}");
        assert!(error.contains("-Z"), "{error}");
    }
}

#[test]
fn test_check_program_accepts_each_enabled_feature() {
    // Enabling exactly the required feature clears the error.
    for &feature in UnstableFeature::all() {
        let mut handler = ErrorCollector::new();
        let source = SourceFile::anonymous(Arc::from("x"));
        UnstableFeatures::new(vec![feature]).check_program(
            &Requires(feature),
            &source,
            &mut handler,
        );

        assert!(
            !handler.has_errors(),
            "enabling `{}` should accept a node that requires it: {}",
            feature.to_string(),
            handler.to_string()
        );
    }
}

#[test]
fn test_from_names_single() {
    let Some(&feature) = UnstableFeature::all().first() else {
        return;
    };
    let features = UnstableFeatures::from_names(vec![feature.to_string()]).unwrap();
    assert!(features.is_enabled(feature));
}

#[test]
fn test_from_names_multiple() {
    let names: Vec<_> = UnstableFeature::all()
        .iter()
        .map(|f| f.to_string())
        .collect();
    let features = UnstableFeatures::from_names(names).unwrap();
    for feature in UnstableFeature::all() {
        assert!(features.is_enabled(*feature));
    }
}

#[test]
fn test_from_names_empty() {
    let features = UnstableFeatures::from_names(Vec::<String>::new()).unwrap();
    for feature in UnstableFeature::all() {
        assert!(!features.is_enabled(*feature));
    }
}

#[test]
fn test_from_names_with_whitespace() {
    let Some(&feature) = UnstableFeature::all().first() else {
        return;
    };
    let features =
        UnstableFeatures::from_names(vec![format!("  {}  ", feature.to_string())]).unwrap();
    assert!(features.is_enabled(feature));
}

#[test]
fn test_from_names_unknown() {
    let result = UnstableFeatures::from_names(vec!["unknown-feature".to_string()]);
    assert!(result.is_err());
    assert!(result.unwrap_err().contains("Unknown"));
}

#[test]
fn test_from_names_dedups_like_new() {
    let Some(&feature) = UnstableFeature::all().first() else {
        return;
    };
    let name = feature.to_string();
    // A repeated flag (e.g. `-Z imports -Z imports`) collapses to one entry and
    // compares equal to the canonical `new` constructor.
    let from_dupes = UnstableFeatures::from_names(vec![name.clone(), name]).unwrap();
    assert_eq!(from_dupes, UnstableFeatures::new(vec![feature]));
}

#[test]
fn from_names_skips_blank_names_and_reports_the_first_unknown_one() {
    let names = vec![" ".to_string(), "imports".to_string(), String::new()];
    assert_eq!(
        UnstableFeatures::from_names(names).unwrap(),
        UnstableFeatures::all()
    );
    let names = vec![
        "imports".to_string(),
        " first ".to_string(),
        "second".to_string(),
    ];
    assert_eq!(
        UnstableFeatures::from_names(names).unwrap_err(),
        "Unknown unstable feature: 'first'"
    );
}

#[test]
fn new_is_canonical() {
    let imports = UnstableFeature::Imports;
    assert_eq!(
        UnstableFeatures::new(vec![imports, imports, imports]),
        UnstableFeatures::new(vec![imports])
    );
    assert_eq!(UnstableFeatures::new(vec![]), UnstableFeatures::none());
    assert_eq!(UnstableFeatures::all().clone(), UnstableFeatures::all());
}

#[test]
fn name_round_trip() {
    for &feature in UnstableFeature::all() {
        assert_eq!(UnstableFeature::from_name(feature.name()), Ok(feature));
    }
    assert_eq!(
        "Imports".parse::<UnstableFeature>(),
        Err("Unknown unstable feature: 'Imports'".to_string())
    );
}

#[test]
fn help_message_lists_features_in_columns() {
    assert_eq!(
        UnstableFeature::help_message(),
        "Enable unstable features. Available features:\n  imports   Module system syntax: \
         'use' imports, 'mod' modules, 'as' aliases, 'crate::' paths"
    );
}

#[test]
fn requirements_of_compound_nodes_come_in_order() {
    let at = |start: usize| FeatureRequirement::new(UnstableFeature::Imports, Span::new(start, start + 1));
    struct At(usize);
    impl RequireFeature for At {
        fn feature_requirements(&self, out: &mut Vec<FeatureRequirement>) {
            out.push(FeatureRequirement::new(
                UnstableFeature::Imports,
                Span::new(self.0, self.0 + 1),
            ));
        }
    }
    let mut out = Vec::new();
    Arc::new(At(1)).feature_requirements(&mut out);
    [At(2), At(3)].as_slice().feature_requirements(&mut out);
    Some(At(4)).feature_requirements(&mut out);
    None::<At>.feature_requirements(&mut out);
    Either::<At, Requires>::Left(At(5)).feature_requirements(&mut out);
    Either::<Requires, At>::Right(At(6)).feature_requirements(&mut out);
    let list: Arc<[At]> = Arc::from(vec![At(7)]);
    list.feature_requirements(&mut out);
    assert_eq!(
        out,
        vec![at(1), at(2), at(3), at(4), at(5), at(6), at(7)]
    );
}

#[test]
fn check_program_reports_every_disabled_use_with_its_file() {
    struct Two;
    impl RequireFeature for Two {
        fn feature_requirements(&self, out: &mut Vec<FeatureRequirement>) {
            out.push(FeatureRequirement::new(
                UnstableFeature::Imports,
                Span::new(0, 3),
            ));
            out.push(FeatureRequirement::new(
                UnstableFeature::Imports,
                Span::new(4, 7),
            ));
        }
    }
    let source = SourceFile::new("lib.simf", Arc::from("use use"));
    let mut handler = ErrorCollector::new();
    UnstableFeatures::none().check_program(&Two, &source, &mut handler);
    assert_eq!(handler.get().len(), 2);
    assert_eq!(*handler.get()[1].span(), Span::new(4, 7));
    for error in handler.get() {
        assert!(matches!(
            error.error(),
            Error::UnstableFeature {
                feature: UnstableFeature::Imports
            }
        ));
        assert_eq!(
            error.source().as_ref().unwrap().name(),
            Some("lib.simf")
        );
    }
    let mut handler = ErrorCollector::new();
    UnstableFeatures::all().check_program(&Two, &source, &mut handler);
    assert!(!handler.has_errors());
}
