use experimentor::engine::{Toggle, Toggles};
use experimentor::mapper::{
    calculate_hash, encoded_hash, map_context_config_to_context, map_contexts_config_to_contexts,
    map_feature_configs_to_features, map_segment_configs_to_segments,
    map_toggles_to_toggles_response, negotiate,
};
use experimentor::user_model;
use experimentor::user_model::{ResponseStatus, SegmentConfig};
use std::collections::hash_map::DefaultHasher;
use std::hash::{Hash, Hasher};

#[derive(Hash)]
struct HashedToggles {
    toggles: Vec<HashedToggle>,
}

#[derive(Hash)]
struct HashedToggle {
    name: String,
    value: String,
}

fn toggles(pairs: &[(&str, &str)]) -> Toggles {
    Toggles {
        toggles: pairs
            .iter()
            .map(|(name, value)| Toggle {
                name: String::from(*name),
                value: String::from(*value),
            })
            .collect(),
    }
}

#[test]
fn test_map_contexts_config_to_contexts_maps_contexts() {
    let contexts = map_contexts_config_to_contexts(&user_model::ContextsConfig {
        contexts: vec![user_model::ContextConfig {
            name: String::from("context_1"),
            features: vec![],
            segments: vec![],
        }],
    });
    assert_eq!(contexts.get("context_1").is_some(), true);
    assert_eq!(contexts.get("context_2").is_some(), false);
}

#[test]
fn test_map_context_config_to_context_base_case() {
    let context = map_context_config_to_context(&user_model::ContextConfig {
        name: String::from("some-name"),
        features: vec![],
        segments: vec![],
    });
    assert_eq!(context.features.len(), 0);
    assert_eq!(context.segments.len(), 0);
}

#[test]
fn test_map_context_config_to_context_maps_features() {
    let context = map_context_config_to_context(&user_model::ContextConfig {
        name: String::from("some-name"),
        features: vec![user_model::FeatureConfig {
            name: String::from("some-feature"),
            description: String::from("some-description"),
            treatments: vec![user_model::TreatmentConfig {
                segments: vec![String::from("segment1")],
                probability: 10,
                value: String::from("some-value"),
            }],
        }],
        segments: vec![],
    });

    assert_eq!(context.features.len(), 1);
    assert_eq!(context.segments.len(), 0);

    assert_eq!(context.features[0].name, "some-feature");
    assert_eq!(context.features[0].treatments.len(), 1);
    assert_eq!(context.features[0].treatments[0].segments.len(), 1);
    assert_eq!(context.features[0].treatments[0].segments[0], "segment1");
    assert_eq!(context.features[0].treatments[0].probability, 10);
    assert_eq!(context.features[0].treatments[0].value, "some-value");
}

#[test]
fn test_map_context_config_to_context_maps_segments() {
    let context = map_context_config_to_context(&user_model::ContextConfig {
        name: String::from("some-name"),
        features: vec![],
        segments: vec![SegmentConfig {
            name: String::from("beta_testers"),
            user_identifiers: vec![String::from("someone")],
        }],
    });

    assert_eq!(context.segments.len(), 1);
    assert_eq!(context.segment("beta_testers").is_some(), true);
    assert_eq!(context.segment("beta_testers").unwrap().len(), 1);
    assert_eq!(context.segment("beta_testers").unwrap()[0], "someone");
}

#[test]
fn test_map_feature_configs_to_features_base_case() {
    let context = map_toggles_to_toggles_response(None, &Toggles { toggles: vec![] });
    assert_eq!(context.toggles.unwrap().len(), 0);
}

#[test]
fn test_map_feature_configs_to_features_maps_toggles() {
    let context = map_toggles_to_toggles_response(
        None,
        &Toggles {
            toggles: vec![Toggle {
                name: String::from("feature"),
                value: String::from("value"),
            }],
        },
    );
    let mapped = context.toggles.unwrap();
    assert_eq!(mapped.len(), 1);
    let found = mapped.iter().find(|(name, _)| name == "feature").unwrap();
    assert_eq!(found.1, "value");
}

#[test]
fn features_and_segments_keep_configuration_order() {
    let config = user_model::ContextConfig {
        name: String::from("c"),
        features: vec![
            user_model::FeatureConfig {
                name: String::from("b"),
                description: String::new(),
                treatments: vec![],
            },
            user_model::FeatureConfig {
                name: String::from("a"),
                description: String::new(),
                treatments: vec![
                    user_model::TreatmentConfig {
                        probability: -3,
                        segments: vec![],
                        value: String::from("x"),
                    },
                    user_model::TreatmentConfig {
                        probability: 127,
                        segments: vec![String::from("s1"), String::from("s2")],
                        value: String::from("y"),
                    },
                ],
            },
        ],
        segments: vec![
            SegmentConfig {
                name: String::from("s2"),
                user_identifiers: vec![String::from("u1"), String::from("u2")],
            },
            SegmentConfig {
                name: String::from("s1"),
                user_identifiers: vec![],
            },
        ],
    };
    let features = map_feature_configs_to_features(&config);
    assert_eq!(features.len(), 2);
    assert_eq!(features[0].name, "b");
    assert_eq!(features[1].name, "a");
    assert_eq!(features[1].treatments[0].probability, -3);
    assert_eq!(features[1].treatments[1].probability, 127);
    assert_eq!(features[1].treatments[1].segments, vec!["s1", "s2"]);
    assert_eq!(features[1].treatments[1].value, "y");
    let segments = map_segment_configs_to_segments(&config);
    assert_eq!(segments.len(), 2);
    assert_eq!(segments[0].0, "s2");
    assert_eq!(segments[0].1, vec!["u1", "u2"]);
    assert_eq!(segments[1].0, "s1");
    assert!(segments[1].1.is_empty());
}

#[test]
fn later_context_config_wins() {
    let contexts = map_contexts_config_to_contexts(&user_model::ContextsConfig {
        contexts: vec![
            user_model::ContextConfig {
                name: String::from("c"),
                features: vec![],
                segments: vec![],
            },
            user_model::ContextConfig {
                name: String::from("c"),
                features: vec![user_model::FeatureConfig {
                    name: String::from("f"),
                    description: String::new(),
                    treatments: vec![],
                }],
                segments: vec![],
            },
        ],
    });
    assert_eq!(contexts.get("c").unwrap().features.len(), 1);
}

#[test]
fn digest_matches_derived_hash_of_pairs() {
    let pairs = [("briefcase", "gold"), ("watch", "none"), ("", "ü")];
    let mut hasher = DefaultHasher::new();
    HashedToggles {
        toggles: pairs
            .iter()
            .map(|(name, value)| HashedToggle {
                name: String::from(*name),
                value: String::from(*value),
            })
            .collect(),
    }
    .hash(&mut hasher);
    let expected = hasher.finish();
    assert_eq!(calculate_hash(&toggles(&pairs)), expected);
    assert_eq!(encoded_hash(&toggles(&pairs)), base64::encode(expected.to_le_bytes()));
}

#[test]
fn hash_is_stable_and_order_sensitive() {
    let first = encoded_hash(&toggles(&[("a", "1"), ("b", "2")]));
    let again = encoded_hash(&toggles(&[("a", "1"), ("b", "2")]));
    let swapped = encoded_hash(&toggles(&[("b", "2"), ("a", "1")]));
    let changed = encoded_hash(&toggles(&[("a", "1"), ("b", "3")]));
    assert_eq!(first, again);
    assert_ne!(first, swapped);
    assert_ne!(first, changed);
    assert_eq!(first.len(), 12);
}

#[test]
fn matching_client_hash_gives_cache_ok() {
    let set = toggles(&[("briefcase", "gold")]);
    let hash = encoded_hash(&set);
    let response = map_toggles_to_toggles_response(Some(&hash), &set);
    assert_eq!(response.status, ResponseStatus::CacheOk);
    assert!(response.hash.is_none());
    assert!(response.toggles.is_none());
}

#[test]
fn stale_client_hash_gets_fresh_toggles() {
    let set = toggles(&[("briefcase", "gold")]);
    let response = map_toggles_to_toggles_response(Some("stale"), &set);
    assert_eq!(response.status, ResponseStatus::Okay);
    assert_eq!(response.hash, Some(encoded_hash(&set)));
    assert_eq!(
        response.toggles,
        Some(vec![(String::from("briefcase"), String::from("gold"))])
    );
}

#[test]
fn unknown_context_with_client_hash_is_not_found() {
    let empty = toggles(&[]);
    let response = map_toggles_to_toggles_response(Some("abc"), &empty);
    assert_eq!(response.status, ResponseStatus::NotFound);
    assert!(response.hash.is_none());
    assert!(response.toggles.is_none());
}

#[test]
fn unknown_context_without_client_hash_is_ok_and_empty() {
    let empty = toggles(&[]);
    let response = map_toggles_to_toggles_response(None, &empty);
    assert_eq!(response.status, ResponseStatus::Okay);
    assert_eq!(response.hash, Some(encoded_hash(&empty)));
    assert_eq!(response.toggles, Some(vec![]));
}

#[test]
fn negotiate_follows_priority_order() {
    let empty = toggles(&[]);
    let current = negotiate(Some("h"), String::from("h"), &empty);
    assert_eq!(current.status, ResponseStatus::CacheOk);
    let missing = negotiate(Some("g"), String::from("h"), &empty);
    assert_eq!(missing.status, ResponseStatus::NotFound);
    let set = toggles(&[("x", "y")]);
    let fresh = negotiate(Some("g"), String::from("h"), &set);
    assert_eq!(fresh.status, ResponseStatus::Okay);
    assert_eq!(fresh.hash, Some(String::from("h")));
    assert_eq!(fresh.toggles, Some(vec![(String::from("x"), String::from("y"))]));
}
