use growthbook_sdk::model::{BucketRange, Namespace, ONE};
use growthbook_sdk::util::{
    choose_variation, decrypt_parts, decrypt_string, find_dot, fnv1a32, get_bucket_ranges,
    get_equal_weights, get_query_string_override, hash, hash_bytes, in_namespace, in_range,
    override_among,
};

fn share(x: f64) -> i64 {
    (x * 1e12).round() as i64
}

fn range(start: f64, end: f64) -> BucketRange {
    BucketRange { range_start: share(start), range_end: share(end) }
}

fn ranges(bounds: &[(f64, f64)]) -> Vec<BucketRange> {
    bounds.iter().map(|(start, end)| range(*start, *end)).collect()
}

#[test]
fn fnv1a32_known_values() {
    assert_eq!(fnv1a32(""), 0x811c9dc5);
    assert_eq!(fnv1a32("a"), 0xe40c292c);
    assert_eq!(fnv1a32("foobar"), 0xbf9cf968);
}

#[test]
fn lib_test_hash() {
    let cases: Vec<(&str, &str, i32, Option<f64>)> = vec![
        ("", "a", 1, Some(0.22)),
        ("", "b", 1, Some(0.077)),
        ("b", "a", 1, Some(0.946)),
        ("ef", "d", 1, Some(0.652)),
        ("asdf", "8952klfjas09ujk", 1, Some(0.549)),
        ("", "123", 1, Some(0.011)),
        ("", "___)((*\":&", 1, Some(0.563)),
        ("seed", "a", 2, Some(0.0505)),
        ("seed", "b", 2, Some(0.2696)),
        ("foo", "ab", 2, Some(0.2575)),
        ("foo", "def", 2, Some(0.2019)),
        ("89123klj", "8952klfjas09ujkasdf", 2, Some(0.124)),
        ("abc", "def", 99, None),
    ];
    for (i, (seed, value, version, expected)) in cases.iter().enumerate() {
        println!("case_index: {}", i);
        let actual = hash(seed, value, *version);
        assert_eq!(actual, expected.map(share), "hash test case '{}' failed", i);
    }
}

#[test]
fn json_test_test_hash() {
    let cases: Vec<(&str, &str, i32, Option<i64>)> = vec![
        ("", "a", 1, Some(220_000_000_000)),
        ("b", "a", 1, Some(946_000_000_000)),
        ("seed", "a", 2, Some(50_500_000_000)),
        ("90850943850283058903", "123", 2, Some(747_600_000_000)),
        ("seed", "___)((*\":&", 2, Some(950_800_000_000)),
        ("abc", "def", 0, None),
        ("abc", "def", 3, None),
        ("abc", "def", -1, None),
    ];
    for (i, (seed, value, version, expected)) in cases.iter().enumerate() {
        println!("testing hash - case {}", i);
        let actual = hash(seed, value, *version);
        assert_eq!(actual, *expected, "hash test case {} failed", i);
    }
}

#[test]
fn hash_lies_in_the_space() {
    for version in [1, 2] {
        for seed in ["", "s", "seed", "another seed"] {
            for value in ["", "1", "user", "\u{e9}t\u{e9}"] {
                let h = hash(seed, value, version).unwrap();
                assert!(0 <= h && h < ONE);
            }
        }
    }
    for version in [0, 3, 99, -1, i32::MAX, i32::MIN] {
        assert_eq!(hash("seed", "value", version), None);
    }
}

#[test]
fn hash_of_seed_in_two_parts() {
    assert_eq!(hash_bytes(b"se", b"ed", b"a", 2), hash("seed", "a", 2));
    assert_eq!(hash_bytes(b"", b"b", b"a", 1), hash("b", "a", 1));
    assert_eq!(hash_bytes(b"b", b"", b"a", 1), Some(share(0.946)));
}

#[test]
fn in_range_is_half_open() {
    let r = range(0.25, 0.5);
    assert!(in_range(share(0.25), &r));
    assert!(in_range(share(0.4999), &r));
    assert!(!in_range(share(0.5), &r));
    assert!(!in_range(share(0.2499), &r));
    assert!(!in_range(share(0.5), &range(0.5, 0.5)));
}

#[test]
fn lib_test_choose_variation() {
    let even = [(0.0, 0.5), (0.5, 1.0)];
    let reduced = [(0.0, 0.25), (0.5, 0.75)];
    let zero = [(0.0, 0.5), (0.5, 0.5), (0.5, 1.0)];
    let cases: Vec<(&str, f64, &[(f64, f64)], i32)> = vec![
        ("even range, 0.2", 0.2, &even, 0),
        ("even range, 0.4", 0.4, &even, 0),
        ("even range, 0.6", 0.6, &even, 1),
        ("even range, 0.8", 0.8, &even, 1),
        ("even range, 0", 0.0, &even, 0),
        ("even range, 0.5", 0.5, &even, 1),
        ("reduced range, 0.2", 0.2, &reduced, 0),
        ("reduced range, 0.4", 0.4, &reduced, -1),
        ("reduced range, 0.6", 0.6, &reduced, 1),
        ("reduced range, 0.8", 0.8, &reduced, -1),
        ("reduced range, 0.25", 0.25, &reduced, -1),
        ("reduced range, 0.5", 0.5, &reduced, 1),
        ("zero range", 0.5, &zero, 2),
    ];
    for (case_name, n, bounds, expected) in cases {
        println!("case_name: {}", case_name);
        let actual = choose_variation(share(n), &ranges(bounds));
        assert_eq!(actual, expected, "choose_variation test case '{}' failed", case_name);
    }
}

#[test]
fn json_test_test_choose_variation() {
    let none: Vec<BucketRange> = vec![];
    assert_eq!(choose_variation(share(0.5), &none), -1, "choose_variation test case {} failed", "no ranges");
    let overlapping = ranges(&[(0.0, 0.6), (0.4, 1.0)]);
    assert_eq!(choose_variation(share(0.5), &overlapping), 0, "choose_variation test case {} failed", "overlap");
    assert_eq!(choose_variation(share(0.7), &overlapping), 1, "choose_variation test case {} failed", "second");
    assert_eq!(choose_variation(ONE, &overlapping), -1, "choose_variation test case {} failed", "end");
    assert_eq!(choose_variation(-1, &overlapping), -1, "choose_variation test case {} failed", "below");
}

#[test]
fn lib_test_get_equal_weights() {
    let cases: Vec<(i32, Vec<f64>)> = vec![
        (-1, vec![]),
        (0, vec![]),
        (1, vec![1.0]),
        (2, vec![0.5, 0.5]),
        (4, vec![0.25, 0.25, 0.25, 0.25]),
        (5, vec![0.2, 0.2, 0.2, 0.2, 0.2]),
    ];
    for (i, (n, expected)) in cases.iter().enumerate() {
        println!("case_index: {}", i);
        let expected: Vec<i64> = expected.iter().map(|w| share(*w)).collect();
        let actual = get_equal_weights(*n);
        assert_eq!(actual, expected, "get_equal_weights test case '{}' failed", i);
    }
}

#[test]
fn json_test_test_get_equal_weights() {
    assert_eq!(get_equal_weights(3), vec![333_333_333_333; 3], "get_equal_weights test case {} failed", 3);
    assert_eq!(get_equal_weights(7), vec![142_857_142_857; 7], "get_equal_weights test case {} failed", 7);
    assert_eq!(get_equal_weights(i32::MIN), Vec::<i64>::new(), "get_equal_weights test case {} failed", "min");
}

#[test]
fn equal_weights_sum_to_the_whole_within_their_number() {
    assert_eq!(get_equal_weights(0), Vec::<i64>::new());
    for k in 1..200 {
        let weights = get_equal_weights(k);
        assert_eq!(weights.len(), k as usize);
        let sum: i64 = weights.iter().sum();
        assert!(sum <= ONE && ONE - sum < k as i64);
    }
}

#[test]
fn lib_test_get_bucket_range() {
    let cases: Vec<(&str, i32, f64, Option<Vec<f64>>, Vec<(f64, f64)>)> = vec![
        ("normal 50/50", 2, 1.0, None, vec![(0.0, 0.5), (0.5, 1.0)]),
        ("reduced coverage", 2, 0.5, None, vec![(0.0, 0.25), (0.5, 0.75)]),
        ("zero coverage", 2, 0.0, None, vec![(0.0, 0.0), (0.5, 0.5)]),
        ("4 variations", 4, 1.0, None, vec![(0.0, 0.25), (0.25, 0.5), (0.5, 0.75), (0.75, 1.0)]),
        ("uneven weights", 2, 1.0, Some(vec![0.4, 0.6]), vec![(0.0, 0.4), (0.4, 1.0)]),
        (
            "uneven weights, 3 variations",
            3,
            1.0,
            Some(vec![0.2, 0.3, 0.5]),
            vec![(0.0, 0.2), (0.2, 0.5), (0.5, 1.0)],
        ),
        (
            "uneven weights, reduced coverage, 3 variations",
            3,
            0.2,
            Some(vec![0.2, 0.3, 0.5]),
            vec![(0.0, 0.04), (0.2, 0.26), (0.5, 0.6)],
        ),
        ("negative coverage", 2, -0.2, None, vec![(0.0, 0.0), (0.5, 0.5)]),
        ("coverage above 1", 2, 1.5, None, vec![(0.0, 0.5), (0.5, 1.0)]),
        ("weights sum below 1", 2, 1.0, Some(vec![0.4, 0.1]), vec![(0.0, 0.5), (0.5, 1.0)]),
        ("weights sum above 1", 2, 1.0, Some(vec![0.7, 0.6]), vec![(0.0, 0.5), (0.5, 1.0)]),
        (
            "weights.length not equal to num variations",
            4,
            1.0,
            Some(vec![0.4, 0.4, 0.2]),
            vec![(0.0, 0.25), (0.25, 0.5), (0.5, 0.75), (0.75, 1.0)],
        ),
        (
            "weights sum almost equals 1",
            2,
            1.0,
            Some(vec![0.4, 0.5999]),
            vec![(0.0, 0.4), (0.4, 0.9999)],
        ),
    ];
    for (case_name, n, coverage, weights, expected) in cases {
        println!("case_name: {}", case_name);
        let weights: Option<Vec<i64>> = weights.map(|w| w.iter().map(|x| share(*x)).collect());
        let expected = ranges(&expected);
        let actual = get_bucket_ranges(n, share(coverage), weights);
        assert_eq!(actual, expected, "bucket_range test case '{}' failed", case_name);
    }
}

#[test]
fn json_test_test_get_bucket_range() {
    let actual = get_bucket_ranges(3, ONE, None);
    let w = 333_333_333_333i64;
    assert_eq!(actual.len(), 3, "bucket_range test case {} failed", "thirds");
    for (i, r) in actual.iter().enumerate() {
        assert_eq!(r.range_start, i as i64 * w, "bucket_range test case {} failed", i);
        assert_eq!(r.range_end, (i as i64 + 1) * w, "bucket_range test case {} failed", i);
    }
    assert_eq!(get_bucket_ranges(0, ONE, None), vec![], "bucket_range test case {} failed", "none");
    assert_eq!(get_bucket_ranges(-3, ONE, Some(vec![])), vec![], "bucket_range test case {} failed", "negative");
    // a gap follows each range where the coverage is not the whole
    let gaps = get_bucket_ranges(2, share(0.1), Some(vec![share(0.5), share(0.5)]));
    assert_eq!(gaps[0].range_end, share(0.05), "bucket_range test case {} failed", "gap");
    assert_eq!(gaps[1].range_start, share(0.5), "bucket_range test case {} failed", "gap");
    assert_eq!(gaps[1].range_end, share(0.55), "bucket_range test case {} failed", "gap");
}

#[test]
fn bucket_ranges_hold_what_64_bits_can_say() {
    let huge = get_bucket_ranges(2, ONE, Some(vec![i64::MAX, i64::MIN + 2 + ONE]));
    // the weights add up to the whole, so they are used
    assert_eq!(huge[0].range_start, 0);
    assert_eq!(huge[0].range_end, i64::MAX);
    assert_eq!(huge[1].range_start, i64::MAX);
    assert_eq!(huge[1].range_end, ONE + 1);
}

#[test]
fn equal_ranges_partition_the_space_and_choice_agrees() {
    for count in 1..40 {
        let made = get_bucket_ranges(count, ONE, None);
        let width = ONE / count as i64;
        assert_eq!(made.len(), count as usize);
        assert_eq!(made[0].range_start, 0);
        for i in 0..made.len() {
            assert_eq!(made[i].range_end - made[i].range_start, width);
            if i + 1 < made.len() {
                assert_eq!(made[i].range_end, made[i + 1].range_start);
            }
        }
        let end = made[made.len() - 1].range_end;
        assert!(end <= ONE && ONE - end < count as i64);
        for step in 0..10_000i64 {
            let point = step * (ONE / 10_000);
            let holding = made.iter().filter(|r| in_range(point, r)).count();
            assert_eq!(holding, 1);
            assert_eq!(choose_variation(point, &made) as i64, point / width);
        }
    }
}

#[test]
fn lib_test_in_namespace() {
    let cases: Vec<(&str, &str, (&str, f64, f64), bool)> = vec![
        ("user 1, namespace1, 1", "1", ("namespace1", 0.0, 0.4), false),
        ("user 1, namespace1, 2", "1", ("namespace1", 0.4, 1.0), true),
        ("user 1, namespace2, 1", "1", ("namespace2", 0.0, 0.4), false),
        ("user 1, namespace2, 2", "1", ("namespace2", 0.4, 1.0), true),
        ("user 2, namespace1, 1", "2", ("namespace1", 0.0, 0.4), false),
        ("user 2, namespace1, 2", "2", ("namespace1", 0.4, 1.0), true),
        ("user 2, namespace2, 1", "2", ("namespace2", 0.0, 0.4), false),
        ("user 2, namespace2, 2", "2", ("namespace2", 0.4, 1.0), true),
        ("user 3, namespace1, 1", "3", ("namespace1", 0.0, 0.4), false),
        ("user 3, namespace1, 2", "3", ("namespace1", 0.4, 1.0), true),
        ("user 3, namespace2, 1", "3", ("namespace2", 0.0, 0.4), true),
        ("user 3, namespace2, 2", "3", ("namespace2", 0.4, 1.0), false),
        ("user 4, namespace1, 1", "4", ("namespace1", 0.0, 0.4), false),
        ("user 4, namespace1, 2", "4", ("namespace1", 0.4, 1.0), true),
        ("user 4, namespace2, 1", "4", ("namespace2", 0.0, 0.4), true),
        ("user 4, namespace2, 2", "4", ("namespace2", 0.4, 1.0), false),
    ];
    for (case_name, user_id, (id, start, end), expected) in cases {
        println!("case_name: {}", case_name);
        let namespace =
            Namespace { id: id.to_string(), range_start: share(start), range_end: share(end) };
        let actual = in_namespace(user_id, &namespace);
        assert_eq!(actual, expected, "in_namespace test case '{}' failed", case_name);
    }
}

#[test]
fn json_test_test_in_namespace() {
    // the seed of a namespace is its name after two underscores
    let namespace = Namespace { id: "namespace1".to_string(), range_start: 0, range_end: ONE };
    assert!(in_namespace("1", &namespace), "in_namespace test case {} failed", "whole");
    assert_eq!(hash("__namespace1", "1", 1), Some(share(0.68)));
    let exact = Namespace {
        id: "namespace1".to_string(),
        range_start: share(0.68),
        range_end: share(0.681),
    };
    assert!(in_namespace("1", &exact), "in_namespace test case {} failed", "start");
    let before = Namespace {
        id: "namespace1".to_string(),
        range_start: share(0.5),
        range_end: share(0.68),
    };
    assert!(!in_namespace("1", &before), "in_namespace test case {} failed", "end");
}

#[test]
fn lib_test_get_query_string_override() {
    let cases: Vec<(&str, &str, &str, i32, Option<i32>)> = vec![
        ("empty url", "my-test", "", 2, None),
        ("no query string", "my-test", "http://example.com", 2, None),
        ("empty query string", "my-test", "http://example.com?", 2, None),
        ("no matching key", "my-test", "http://example.com?somequery", 2, None),
        ("invalid query string", "my-test", "http://example.com??&&&?#", 2, None),
        ("suffix of the key", "my-test", "http://example.com?my-testing=1", 2, None),
        ("prefix of the key", "my-test", "http://example.com?my-tes=1", 2, None),
        ("no value", "my-test", "http://example.com?my-test", 2, None),
        ("empty value", "my-test", "http://example.com?my-test=", 2, None),
        ("not a number", "my-test", "http://example.com?my-test=a", 2, None),
        ("a fraction", "my-test", "http://example.com?my-test=1.5", 2, None),
        ("negative", "my-test", "http://example.com?my-test=-1", 2, None),
        ("too large", "my-test", "http://example.com?my-test=2", 2, None),
        ("first variation", "my-test", "http://example.com?my-test=0", 2, Some(0)),
        ("second variation", "my-test", "http://example.com?my-test=1", 2, Some(1)),
        ("among others", "my-test", "http://example.com?a=3&my-test=1&b=2", 2, Some(1)),
        ("with a fragment", "my-test", "http://example.com?my-test=1#my-test=0", 2, Some(1)),
        ("the first one counts", "my-test", "http://example.com?my-test=5&my-test=1", 2, None),
        ("a plus sign", "my-test", "http://example.com?my-test=%2B1", 2, Some(1)),
        ("leading zeros", "my-test", "http://example.com?my-test=001", 2, Some(1)),
        ("encoded key", "my test", "http://example.com?my%20test=1", 2, Some(1)),
        ("no host", "my-test", "/path?my-test=1", 2, None),
        ("beyond 32 bits", "my-test", "http://example.com?my-test=4294967297", 2, None),
    ];
    for (case_name, id, url, n, expected) in cases {
        println!("case_name: {}", case_name);
        let actual = get_query_string_override(id, url, n);
        assert_eq!(actual, expected, "get_query_string_override test case '{}' failed", case_name);
    }
}

#[test]
fn json_test_test_get_query_string_override() {
    let pairs = vec![
        ("other".to_string(), "1".to_string()),
        ("id".to_string(), "3".to_string()),
        ("id".to_string(), "0".to_string()),
    ];
    assert_eq!(override_among("id", &pairs, 4), Some(3), "get_query_string_override test case {} failed", 0);
    assert_eq!(override_among("id", &pairs, 3), None, "get_query_string_override test case {} failed", 1);
    assert_eq!(override_among("other", &pairs, 2), Some(1), "get_query_string_override test case {} failed", 2);
    assert_eq!(override_among("none", &pairs, 2), None, "get_query_string_override test case {} failed", 3);
    assert_eq!(override_among("id", &pairs, 0), None, "get_query_string_override test case {} failed", 4);
    assert_eq!(override_among("id", &vec![], 2), None, "get_query_string_override test case {} failed", 5);
}

#[test]
fn lib_test_decrypt() {
    let cases: Vec<(&str, &str, &str, Option<&str>)> = vec![
        (
            "Valid feature",
            "m5ylFM6ndyOJA2OPadubkw==.Uu7ViqgKEt/dWvCyhI46q088PkAEJbnXKf3KPZjf9IEQQ+A8fojNoxw4wIbPX3aj",
            "Zvwv/+uhpFDznZ6SX28Yjg==",
            Some("{\"feature\":{\"defaultValue\":true}}"),
        ),
        (
            "Wrong key",
            "m5ylFM6ndyOJA2OPadubkw==.Uu7ViqgKEt/dWvCyhI46q088PkAEJbnXKf3KPZjf9IEQQ+A8fojNoxw4wIbPX3aj",
            "Zvwv/+uhpFDznZ6SX39Yjg==",
            None,
        ),
        (
            "Invalid key length",
            "m5ylFM6ndyOJA2OPadubkw==.Uu7ViqgKEt/dWvCyhI46q088PkAEJbnXKf3KPZjf9IEQQ+A8fojNoxw4wIbPX3aj",
            "Zvwv/+uhpFDznSX39Yjg==",
            None,
        ),
        (
            "Invalid key characters",
            "m5ylFM6ndyOJA2OPadubkw==.Uu7ViqgKEt/dWvCyhI46q088PkAEJbnXKf3KPZjf9IEQQ+A8fojNoxw4wIbPX3aj",
            "Zvwv/%!(pFDznZ6SX39Yjg==",
            None,
        ),
        (
            "Invalid body",
            "m5ylFM6ndyOJA2OPadubkw==.Uu7ViqgKEt/dWvCyhI46q0!*&()f3KPZjf9IEQQ+A8fojNoxw4wIbPX3aj",
            "Zvwv/+uhpFDznZ6SX28Yjg==",
            None,
        ),
        (
            "Invalid iv length",
            "m5ylFM6ndyOPadubkw==.Uu7ViqgKEt/dWvCyhI46q088PkAEJbnXKf3KPZjf9IEQQ+A8fojNoxw4wIbPX3aj",
            "Zvwv/+uhpFDznZ6SX28Yjg==",
            None,
        ),
        (
            "Invalid iv",
            "m5ylFM6*&(OJA2OPadubkw==.Uu7ViqgKEt/dWvCyhI46q088PkAEJbnXKf3KPZjf9IEQQ+A8fojNoxw4wIbPX3aj",
            "Zvwv/+uhpFDznZ6SX28Yjg==",
            None,
        ),
        (
            "Missing delimiter",
            "m5ylFM6ndyOJA2OPadubkw==Uu7ViqgKEt/dWvCyhI46q088PkAEJbnXKf3KPZjf9IEQQ+A8fojNoxw4wIbPX3aj",
            "Zvwv/+uhpFDznZ6SX28Yjg==",
            None,
        ),
        ("Corrupted and empty", "", "Zvwv/+uhpFDznZ6SX28Yjg==", None),
    ];
    for (case_name, ciphertext, key, expected) in cases {
        println!("case_name: {}", case_name);
        let actual = decrypt_string(ciphertext, key);
        assert_eq!(actual.as_deref(), expected, "decrypt test case '{}' failed", case_name);
    }
}

#[test]
fn json_test_test_decrypt() {
    let encrypted = "UqANSnJ7xTTK9y2PALtnwQ==.BZAstXrI9eh9qlvp7VinD8CKk9ZE8755vnFtkClJNYstTUwF4FKwWWq84F/DFTe+2Xlzbys83S1Ih6XIFhoigKIQeImlnzR3GJ6Bvj3REbKccw9TJz4bX3ozFzSNBbZbLAynnd9aTLK0PAYASLXKtIaAs/K0WSbV7mM95CVMt9DU7w1TKme/tQcqfEn+CJhi2WHNdEzGs18j9t7zXcRgdAvXizLzP7HdOnCmfXy9bZbpqWmAdUBZ0yhmb2PGXa5FBwet7h1MV0kRFX++WocwjA==";
    let expected = "{\"greeting\":{\"defaultValue\":\"hello, this is a message from encrypted features!\",\"rules\":[{\"condition\":{\"country\":\"france\"},\"force\":\"bonjour\"},{\"condition\":{\"country\":\"mexico\"},\"force\":\"holaaaaa\"}]}}";
    let actual = decrypt_string(encrypted, "BhB1wORFmZLTDjbvstvS8w==");
    assert_eq!(actual.as_deref(), Some(expected), "decrypt test case {} failed", "payload");
    let wrong = decrypt_string(encrypted, "Zvwv/+uhpFDznZ6SX28Yjg==");
    assert_eq!(wrong, None, "decrypt test case {} failed", "wrong key");
}

#[test]
fn decrypt_splits_at_the_first_full_stop() {
    assert_eq!(find_dot(b"ab.cd.ef"), 2);
    assert_eq!(find_dot(b".x"), 0);
    assert_eq!(find_dot(b"abc"), 3);
    assert_eq!(find_dot(b""), 0);
    // a second full stop belongs to the data, which is then no base 64
    assert_eq!(
        decrypt_string(
            "m5ylFM6ndyOJA2OPadubkw==.Uu7ViqgKEt/dWvCyhI46q088PkAEJbnXKf3KPZjf9IEQQ+A8fojNoxw4wIbPX3aj.",
            "Zvwv/+uhpFDznZ6SX28Yjg==",
        ),
        None
    );
}

#[test]
fn decrypt_parts_checks_the_lengths() {
    let key = [0x66u8, 0xfc, 0x2f, 0xff, 0xeb, 0xa1, 0xa4, 0x50, 0xf3, 0x9d, 0x9e, 0x92, 0x5f, 0x6f, 0x18, 0x8e];
    let iv = [0x9bu8, 0x9c, 0xa5, 0x14, 0xce, 0xa7, 0x77, 0x23, 0x89, 0x03, 0x63, 0x8f, 0x69, 0xdb, 0x9b, 0x93];
    let data = [
        0x52u8, 0xee, 0xd5, 0x8a, 0xa8, 0x0a, 0x12, 0xdf, 0xdd, 0x5a, 0xf0, 0xb2, 0x84, 0x8e, 0x3a,
        0xab, 0x4f, 0x3c, 0x3e, 0x40, 0x04, 0x25, 0xb9, 0xd7, 0x29, 0xfd, 0xca, 0x3d, 0x98, 0xdf,
        0xf4, 0x81, 0x10, 0x43, 0xe0, 0x3c, 0x7e, 0x88, 0xcd, 0xa3, 0x1c, 0x38, 0xc0, 0x86, 0xcf,
        0x5f, 0x76, 0xa3,
    ];
    assert_eq!(
        decrypt_parts(&iv, &data, &key).as_deref(),
        Some("{\"feature\":{\"defaultValue\":true}}")
    );
    assert_eq!(decrypt_parts(&iv[..15], &data, &key), None);
    assert_eq!(decrypt_parts(&iv, &data, &key[..8]), None);
    assert_eq!(decrypt_parts(&iv, &data[..47], &key), None);
    assert_eq!(decrypt_parts(&iv, &[], &key), None);
}
