use forum_codec::encode::{
    encode_category, encode_moderation_into, encode_post, encode_thread,
};
use forum_codec::error::DecodeError;
use forum_codec::pipeline;
use forum_codec::records::{
    decode_category_record, decode_opt_moderation, decode_post_record, decode_thread_record,
};
use forum_codec::types::{
    BlockchainTimestamp, Category, ChildPositionInParentCategory, ModerationAction, Post,
    PostTextChange, Thread,
};

fn zero_account() -> Vec<u8> {
    vec![0u8; 32]
}

fn sample_moderation() -> ModerationAction {
    ModerationAction {
        moderated_at: BlockchainTimestamp { block: 11, time: 22 },
        moderator_id: (0u8..32).collect(),
        rationale: b"spam".to_vec(),
    }
}

fn sample_category() -> Category {
    Category {
        id: 7,
        title: b"General".to_vec(),
        description: Vec::new(),
        created_at: BlockchainTimestamp { block: 100, time: 5000 },
        deleted: false,
        archived: false,
        num_direct_subcategories: 0,
        num_direct_unmoderated_threads: 2,
        num_direct_moderated_threads: 0,
        position_in_parent_category: None,
        moderator_id: zero_account(),
    }
}

fn sample_thread() -> Thread {
    Thread {
        id: 3,
        title: b"hello".to_vec(),
        category_id: 7,
        nr_in_category: 1,
        moderation: None,
        num_unmoderated_posts: 2,
        num_moderated_posts: 0,
        created_at: BlockchainTimestamp { block: 42, time: 777 },
        author_id: (100u8..132).collect(),
    }
}

fn sample_post() -> Post {
    Post {
        id: 9,
        thread_id: 3,
        nr_in_thread: 2,
        current_text: b"current body".to_vec(),
        moderation: Some(sample_moderation()),
        text_change_history: vec![
            PostTextChange {
                expired_at: BlockchainTimestamp { block: 1, time: 2 },
                text: b"first draft".to_vec(),
            },
            PostTextChange {
                expired_at: BlockchainTimestamp { block: 3, time: 4 },
                text: Vec::new(),
            },
        ],
        created_at: BlockchainTimestamp { block: 50, time: 60 },
        author_id: (200u8..232).collect(),
    }
}

#[test]
fn category_round_trip() {
    let c = sample_category();
    let enc = encode_category(&c);
    assert_eq!(decode_category_record(&enc).unwrap(), c);
}

#[test]
fn thread_round_trip() {
    let t = sample_thread();
    let enc = encode_thread(&t);
    assert_eq!(decode_thread_record(&enc).unwrap(), t);
}

#[test]
fn post_round_trip() {
    let p = sample_post();
    let enc = encode_post(&p);
    assert_eq!(decode_post_record(&enc).unwrap(), p);
}

#[test]
fn category_scenario_exact_bytes() {
    // The fields of `sample_category`, laid out by hand.
    let mut buf = Vec::new();
    buf.extend_from_slice(&[7, 0, 0, 0, 0, 0, 0, 0]); // id
    buf.push(7 << 2); // compact length of the title
    buf.extend_from_slice(b"General");
    buf.push(0); // compact length of the empty description
    buf.extend_from_slice(&[100, 0, 0, 0, 0, 0, 0, 0]); // block
    buf.extend_from_slice(&[0x88, 0x13, 0, 0, 0, 0, 0, 0]); // moment 5000
    buf.push(0); // deleted
    buf.push(0); // archived
    buf.extend_from_slice(&[0, 0, 0, 0]); // subcategories
    buf.extend_from_slice(&[2, 0, 0, 0]); // unmoderated threads
    buf.extend_from_slice(&[0, 0, 0, 0]); // moderated threads
    buf.push(0); // no position in parent
    buf.extend_from_slice(&[0u8; 32]); // moderator
    assert_eq!(buf.len(), 80);

    let decoded = decode_category_record(&buf).unwrap();
    assert_eq!(decoded, sample_category());
    assert_eq!(encode_category(&sample_category()), buf);
}

#[test]
fn thread_scenario_counters_and_absent_moderation() {
    let t = sample_thread();
    let enc = encode_thread(&t);
    let decoded = decode_thread_record(&enc).unwrap();
    assert_eq!(decoded.moderation, None);
    assert_eq!(decoded.num_unmoderated_posts + decoded.num_moderated_posts, 2);
}

#[test]
fn truncation_always_fails() {
    // Every proper prefix of a valid buffer fails with a truncation error.
    let enc = encode_post(&sample_post());
    for cut in 0..enc.len() {
        let shorter = enc[..cut].to_vec();
        match decode_post_record(&shorter) {
            Err(DecodeError::UnexpectedEof) | Err(DecodeError::InvalidCompactLength) => {}
            other => panic!("prefix of {} bytes gave {:?}", cut, other),
        }
    }
    let enc = encode_category(&sample_category());
    let mut shorter = enc.clone();
    shorter.pop();
    assert_eq!(decode_category_record(&shorter), Err(DecodeError::UnexpectedEof));
}

#[test]
fn trailing_bytes_rejected() {
    let mut enc = encode_category(&sample_category());
    enc.push(0);
    assert_eq!(decode_category_record(&enc), Err(DecodeError::TrailingBytes));
}

#[test]
fn optional_field_consumption() {
    // A single zero byte: absent, exactly one byte consumed.
    let (v, p) = decode_opt_moderation(&vec![0], 0).unwrap();
    assert_eq!(v, None);
    assert_eq!(p, 1);
    // A one byte followed by an encoded value: present, 1 + size consumed.
    let m = sample_moderation();
    let mut buf = vec![1u8];
    encode_moderation_into(&mut buf, &m);
    let size = buf.len() - 1;
    let (v, p) = decode_opt_moderation(&buf, 0).unwrap();
    assert_eq!(v, Some(m));
    assert_eq!(p, 1 + size);
    // Any other discriminant is rejected.
    assert_eq!(decode_opt_moderation(&vec![2], 0), Err(DecodeError::InvalidOptionTag));
}

#[test]
fn invalid_boolean_in_category() {
    let mut enc = encode_category(&sample_category());
    enc[33] = 5; // the `deleted` byte
    assert_eq!(decode_category_record(&enc), Err(DecodeError::InvalidBooleanEncoding));
}

#[test]
fn invalid_option_tag_in_category() {
    let mut enc = encode_category(&sample_category());
    enc[47] = 2; // the position discriminant
    assert_eq!(decode_category_record(&enc), Err(DecodeError::InvalidOptionTag));
}

#[test]
fn category_with_position_round_trip() {
    let mut c = sample_category();
    c.position_in_parent_category = Some(ChildPositionInParentCategory {
        parent_id: 1,
        child_nr_in_parent_category: 4,
    });
    c.deleted = true;
    c.archived = true;
    let enc = encode_category(&c);
    assert_eq!(enc.len(), 80 + 12);
    assert_eq!(decode_category_record(&enc).unwrap(), c);
}

#[test]
fn pipeline_preserves_order_and_isolates_failures() {
    let a = sample_category();
    let mut b = sample_category();
    b.id = 8;
    b.title = b"Meta".to_vec();
    let mut c = sample_category();
    c.id = 9;

    let good_b = encode_category(&b);
    let mut corrupt_b = good_b.clone();
    corrupt_b.pop();

    let items = vec![
        (7u64, encode_category(&a)),
        (8u64, corrupt_b),
        (9u64, encode_category(&c)),
    ];
    let out = pipeline::decode_categories(&items);
    assert_eq!(out.len(), 3);
    assert_eq!(out[0].0, 7);
    assert_eq!(out[1].0, 8);
    assert_eq!(out[2].0, 9);
    assert_eq!(out[0].1, Ok(a));
    assert_eq!(out[1].1, Err(DecodeError::UnexpectedEof));
    assert_eq!(out[2].1, Ok(c));
    // The failing slot decodes exactly as it would alone; the others are
    // unaffected by its corruption.
    let alone = pipeline::decode_categories(&vec![(8u64, good_b)]);
    assert_eq!(alone[0].1, Ok(b));
}

#[test]
fn hex_entry_points() {
    let c = sample_category();
    let hex_str = hex::encode(encode_category(&c));
    assert_eq!(pipeline::decode_category(&hex_str).unwrap(), c);
    // Upper-case digits are accepted too.
    assert_eq!(pipeline::decode_category(&hex_str.to_uppercase()).unwrap(), c);

    let t = sample_thread();
    assert_eq!(pipeline::decode_thread(&hex::encode(encode_thread(&t))).unwrap(), t);
    let p = sample_post();
    assert_eq!(pipeline::decode_post(&hex::encode(encode_post(&p))).unwrap(), p);
}

#[test]
fn hex_entry_rejects_malformed_envelope() {
    assert_eq!(
        pipeline::decode_category("zz"),
        Err(DecodeError::MalformedInputEnvelope)
    );
    // Odd number of digits.
    assert_eq!(
        pipeline::decode_category("abc"),
        Err(DecodeError::MalformedInputEnvelope)
    );
    // A 0x prefix is not permitted.
    assert_eq!(
        pipeline::decode_post("0x00"),
        Err(DecodeError::MalformedInputEnvelope)
    );
}

#[test]
fn error_names_are_stable() {
    assert_eq!(DecodeError::UnexpectedEof.name(), "UnexpectedEof");
    assert_eq!(DecodeError::TrailingBytes.name(), "TrailingBytes");
}
