use dht_key::key::{key_cmp, key_dist, key_from_bytes, Key, KeyError, KEY_SIZE_BYTES};
use std::cmp::Ordering;

#[test]
fn test_key_cmp() {
    let x1 = [1, 0, 0, 0, 0, 0, 0, 0, 0, 0, 0, 0, 0, 0, 0, 0];
    let x2 = [0, 1, 0, 0, 0, 0, 0, 0, 0, 0, 0, 0, 0, 0, 0, 0];
    let x3 = [2, 0, 0, 0, 0, 0, 0, 0, 0, 0, 0, 0, 0, 0, 0, 0];
    assert_eq!(key_cmp(&x1, &x2), Ordering::Greater);
    assert_eq!(key_cmp(&x2, &x1), Ordering::Less);
    assert_eq!(key_cmp(&x1, &x1), Ordering::Equal);
    assert_eq!(key_cmp(&x2, &x2), Ordering::Equal);
    assert_eq!(key_cmp(&x3, &x3), Ordering::Equal);
    assert_eq!(key_cmp(&x1, &x3), Ordering::Less);
    assert_eq!(key_cmp(&x2, &x3), Ordering::Less);
}

#[test]
fn test_key_dist() {
    let x1 = [255; 16];
    let x2 = [0; 16];
    let x3 = [1, 0, 0, 0, 0, 0, 0, 0, 0, 0, 0, 0, 0, 0, 0, 0];
    assert_eq!(key_dist(&x1, &x2), [255; 16]);
    assert_eq!(key_dist(&x1, &x1), [0; 16]);
    assert_eq!(key_dist(&x2, &x2), [0; 16]);
    assert_eq!(key_dist(&x2, &x3), [1, 0, 0, 0, 0, 0, 0, 0, 0, 0, 0, 0, 0, 0, 0, 0]);
    assert_eq!(key_dist(&x1, &x3), [254, 255, 255, 255, 255, 255, 255, 255, 255, 255, 255, 255, 255, 255, 255, 255]);
}

fn sample_keys() -> Vec<Key> {
    vec![
        [0; 16],
        [255; 16],
        [1, 0, 0, 0, 0, 0, 0, 0, 0, 0, 0, 0, 0, 0, 0, 0],
        [0, 0, 0, 0, 0, 0, 0, 0, 0, 0, 0, 0, 0, 0, 0, 1],
        [0x12, 0x34, 0x56, 0x78, 0x9a, 0xbc, 0xde, 0xf0, 0, 1, 2, 3, 4, 5, 6, 7],
        [0x12, 0x34, 0x56, 0x78, 0x9a, 0xbc, 0xde, 0xf0, 0, 1, 2, 3, 4, 5, 6, 8],
        [128, 0, 0, 0, 0, 0, 0, 0, 0, 0, 0, 0, 0, 0, 0, 0],
    ]
}

#[test]
fn cmp_matches_big_endian_integer_order() {
    let keys = sample_keys();
    for a in &keys {
        for b in &keys {
            let expected = u128::from_be_bytes(*a).cmp(&u128::from_be_bytes(*b));
            assert_eq!(key_cmp(a, b), expected);
        }
    }
}

#[test]
fn cmp_is_antisymmetric_and_transitive() {
    let keys = sample_keys();
    for a in &keys {
        assert_eq!(key_cmp(a, a), Ordering::Equal);
        for b in &keys {
            assert_eq!(key_cmp(a, b), key_cmp(b, a).reverse());
            assert_eq!(key_cmp(a, b) == Ordering::Equal, a == b);
            for c in &keys {
                if key_cmp(a, b) == Ordering::Less && key_cmp(b, c) == Ordering::Less {
                    assert_eq!(key_cmp(a, c), Ordering::Less);
                }
            }
        }
    }
}

#[test]
fn cmp_last_byte_decides_when_rest_equal() {
    let a = [0, 0, 0, 0, 0, 0, 0, 0, 0, 0, 0, 0, 0, 0, 0, 1];
    let b = [0; 16];
    assert_eq!(key_cmp(&a, &b), Ordering::Greater);
    assert_eq!(key_cmp(&b, &a), Ordering::Less);
}

#[test]
fn dist_laws_on_sample_keys() {
    let keys = sample_keys();
    for a in &keys {
        assert_eq!(key_dist(a, a), [0; 16]);
        for b in &keys {
            assert_eq!(key_dist(a, b), key_dist(b, a));
            assert_eq!(key_dist(a, b) == [0; 16], a == b);
            for c in &keys {
                let ab = key_dist(a, b);
                let bc = key_dist(b, c);
                assert_eq!(key_dist(&ab, &bc), key_dist(a, c));
            }
        }
    }
}

#[test]
fn dist_mixed_bytes() {
    let a = [0x0f, 0xf0, 0xaa, 0x55, 0, 0, 0, 0, 0, 0, 0, 0, 0, 0, 0, 0xff];
    let b = [0xff, 0xff, 0x55, 0x55, 0, 0, 0, 0, 0, 0, 0, 0, 0, 0, 0, 0x0f];
    assert_eq!(key_dist(&a, &b), [0xf0, 0x0f, 0xff, 0x00, 0, 0, 0, 0, 0, 0, 0, 0, 0, 0, 0, 0xf0]);
}

#[test]
fn from_bytes_rejects_wrong_lengths() {
    assert_eq!(key_from_bytes(&[0u8; 15]), Err(KeyError::LengthMismatch));
    assert_eq!(key_from_bytes(&[0u8; 17]), Err(KeyError::LengthMismatch));
    assert_eq!(key_from_bytes(&[]), Err(KeyError::LengthMismatch));
}

#[test]
fn from_bytes_accepts_sixteen_bytes() {
    let bytes: Vec<u8> = (1..=16).collect();
    assert_eq!(bytes.len(), KEY_SIZE_BYTES);
    let key = key_from_bytes(&bytes).unwrap();
    assert_eq!(key, [1, 2, 3, 4, 5, 6, 7, 8, 9, 10, 11, 12, 13, 14, 15, 16]);
}
