use edisondb::requests::{check_audit, check_delete, check_embed, check_read, check_search, check_write, Rejection};
use edisondb::DataTier;

#[test]
fn write_checks_in_order() {
    assert_eq!(
        check_write(false, "", "", vec![], 9),
        Err(Rejection::Unauthenticated("x-password metadata header is required"))
    );
    assert_eq!(check_write(true, "", "r", b"p".to_vec(), 0), Err(Rejection::Unauthenticated("owner_id is required")));
    assert_eq!(check_write(true, "o", "", b"p".to_vec(), 0), Err(Rejection::InvalidArgument("record_id is required")));
    assert_eq!(
        check_write(true, "o", "r", vec![], 0),
        Err(Rejection::InvalidArgument("payload must not be empty"))
    );
    assert_eq!(check_write(true, "o", "r", vec![0xff], 7), Err(Rejection::InvalidTier(7)));
    assert_eq!(
        check_write(true, "o", "r", vec![0xff], 1),
        Err(Rejection::InvalidArgument("payload must be valid UTF-8"))
    );
    assert_eq!(check_write(true, "o", "r", b"hi".to_vec(), 2), Ok((DataTier::Noise, "hi".to_string())));
}

#[test]
fn read_delete_audit_checks() {
    assert_eq!(check_read(true, "o", 0), Ok(DataTier::Critical));
    assert_eq!(check_read(true, "", 0), Err(Rejection::Unauthenticated("owner_id is required")));
    assert_eq!(check_read(true, "o", -1), Err(Rejection::InvalidTier(-1)));
    assert_eq!(check_delete(true, "o", "", 1), Err(Rejection::InvalidArgument("record_id is required")));
    assert_eq!(check_delete(true, "o", "r", 1), Ok(DataTier::Personal));
    assert_eq!(check_audit(true, "o", "r"), Ok(()));
    assert_eq!(
        check_audit(false, "o", "r"),
        Err(Rejection::Unauthenticated("x-password metadata header is required"))
    );
}

#[test]
fn embed_checks() {
    assert_eq!(check_embed(true, "o", b"text".to_vec(), 0), Ok((DataTier::Critical, "text".to_string())));
    assert_eq!(check_embed(true, "o", b"text".to_vec(), 5), Err(Rejection::InvalidTier(5)));
}

#[test]
fn search_checks_and_decodes_query() {
    assert_eq!(check_search(true, "o", &[], 0, 0), Err(Rejection::InvalidArgument("query_vec must not be empty")));
    assert_eq!(
        check_search(true, "o", &[1, 2, 3], 0, 0),
        Err(Rejection::InvalidArgument("query_vec must be a sequence of 4-byte little-endian f32 values"))
    );
    let mut q = Vec::new();
    q.extend_from_slice(&1.5f32.to_le_bytes());
    q.extend_from_slice(&(-2.0f32).to_le_bytes());
    let (tier, k, bits) = check_search(true, "o", &q, 2, 0).unwrap();
    assert_eq!(tier, DataTier::Noise);
    assert_eq!(k, 10);
    assert_eq!(bits.iter().map(|b| f32::from_bits(*b)).collect::<Vec<f32>>(), vec![1.5, -2.0]);
    assert_eq!(check_search(true, "o", &q, 2, 3).unwrap().1, 3);
}
