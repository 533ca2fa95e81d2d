use upload_core::auth::{authorize, require_login, Claim, Role};
use upload_core::blobs::BlobSet;
use upload_core::errors::UploadError;
use upload_core::formats::{extension, supported, validate_picture, ImgKind};
use upload_core::hasher::{blob_identifier, blob_name_for};
use upload_core::keys::{decode_sequence_id, encode_record_key, encode_u32};
use upload_core::pics::{pic_destination, PicDest, PicPage};
use upload_core::store::{SequenceCounter, Store};

fn png_bytes() -> Vec<u8> {
    vec![0x89, 0x50, 0x4E, 0x47, 0x0D, 0x0A, 0x1A, 0x0A]
}

fn jpeg_bytes() -> Vec<u8> {
    vec![0xFF, 0xD8, 0xFF, 0xE0]
}

fn gif_bytes() -> Vec<u8> {
    b"GIF89a".to_vec()
}

fn webp_bytes() -> Vec<u8> {
    b"RIFF\x00\x00\x00\x00WEBP".to_vec()
}

fn bmp_bytes() -> Vec<u8> {
    b"BMxxxx".to_vec()
}

fn garbage_bytes() -> Vec<u8> {
    b"not an image at all".to_vec()
}

#[test]
fn blob_identifier_is_digest_dot_extension() {
    let name = blob_identifier(&png_bytes(), ImgKind::Png);
    assert_eq!(
        name,
        b"4caece539b039b16e16206ea2478f8c5ffb2ca05.png".to_vec()
    );
    let name = blob_identifier(&jpeg_bytes(), ImgKind::Jpeg);
    assert_eq!(
        name,
        b"30567f6b52af60449a6113d3c80fb9f850b7426a.jpg".to_vec()
    );
    let name = blob_identifier(&gif_bytes(), ImgKind::Gif);
    assert_eq!(
        name,
        b"25c9b37ae36a0a08318d4dca7ca57ea98d776821.gif".to_vec()
    );
    let name = blob_identifier(&webp_bytes(), ImgKind::Webp);
    assert_eq!(
        name,
        b"6857def63ea34300fc6a9aa1410d7a25e049d0e9.webp".to_vec()
    );
}

#[test]
fn blob_identifier_of_empty_payload() {
    let name = blob_identifier(&Vec::new(), ImgKind::Gif);
    assert_eq!(
        name,
        b"da39a3ee5e6b4b0d3255bfef95601890afd80709.gif".to_vec()
    );
}

#[test]
fn format_detection_by_magic_bytes() {
    // Supported magic bytes are accepted; the identifier's extension
    // shows which format was detected.
    assert!(blob_name_for(&png_bytes()).unwrap().ends_with(b".png"));
    assert!(blob_name_for(&jpeg_bytes()).unwrap().ends_with(b".jpg"));
    assert!(blob_name_for(&gif_bytes()).unwrap().ends_with(b".gif"));
    assert!(blob_name_for(&webp_bytes()).unwrap().ends_with(b".webp"));
    // A detectable but unsupported format, and undetectable bytes, are
    // both rejected.
    assert_eq!(blob_name_for(&bmp_bytes()), None);
    assert_eq!(blob_name_for(&garbage_bytes()), None);
}

#[test]
fn supported_set_and_extensions() {
    assert!(supported(ImgKind::Png));
    assert!(supported(ImgKind::Jpeg));
    assert!(supported(ImgKind::Webp));
    assert!(supported(ImgKind::Gif));
    assert!(!supported(ImgKind::Other));
    assert_eq!(extension(ImgKind::Png), b"png".to_vec());
    assert_eq!(extension(ImgKind::Jpeg), b"jpg".to_vec());
    assert_eq!(extension(ImgKind::Webp), b"webp".to_vec());
    assert_eq!(extension(ImgKind::Gif), b"gif".to_vec());
}

#[test]
fn validate_picture_rejects_bad_payloads() {
    // Undetectable format.
    assert_eq!(
        validate_picture(&garbage_bytes()),
        Err(UploadError::UnsupportedFormat)
    );
    // Detectable but outside the supported set.
    assert_eq!(
        validate_picture(&bmp_bytes()),
        Err(UploadError::UnsupportedFormat)
    );
    // Supported magic bytes that do not decode as a whole image.
    assert_eq!(
        validate_picture(&png_bytes()),
        Err(UploadError::UnsupportedFormat)
    );
}

#[test]
fn validate_picture_accepts_a_whole_image() {
    // A one-pixel GIF image, complete enough to decode.
    let gif: Vec<u8> = vec![
        0x47, 0x49, 0x46, 0x38, 0x39, 0x61, 0x01, 0x00, 0x01, 0x00, 0x80, 0x00, 0x00, 0x00, 0x00,
        0x00, 0xFF, 0xFF, 0xFF, 0x21, 0xF9, 0x04, 0x00, 0x00, 0x00, 0x00, 0x00, 0x2C, 0x00, 0x00,
        0x00, 0x00, 0x01, 0x00, 0x01, 0x00, 0x00, 0x02, 0x02, 0x44, 0x01, 0x00, 0x3B,
    ];
    assert_eq!(validate_picture(&gif), Ok(ImgKind::Gif));
}

#[test]
fn ingest_dedups_identical_content_across_owners() {
    let mut store = Store::new();
    let first = store.ingest(1, &vec![png_bytes()]);
    let second = store.ingest(2, &vec![png_bytes()]);
    // One identifier value, accepted for both owners.
    assert_eq!(first.len(), 1);
    assert_eq!(first, second);
    // One physical blob.
    assert_eq!(store.blobs.names.len(), 1);
    assert_eq!(store.blobs.names[0], first[0]);
    // Two distinct index records referencing it.
    assert_eq!(store.index.records.len(), 2);
    assert_eq!(store.index.records[0].owner_id, 1);
    assert_eq!(store.index.records[1].owner_id, 2);
    assert_ne!(
        store.index.records[0].sequence_id,
        store.index.records[1].sequence_id
    );
    assert_eq!(store.index.records[0].blob, first[0]);
    assert_eq!(store.index.records[1].blob, first[0]);
}

#[test]
fn ingest_skips_unsupported_item_and_keeps_order() {
    let mut store = Store::new();
    let payloads = vec![
        png_bytes(),
        jpeg_bytes(),
        bmp_bytes(), // unsupported: skipped, batch continues
        gif_bytes(),
        webp_bytes(),
    ];
    let accepted = store.ingest(7, &payloads);
    assert_eq!(accepted.len(), 4);
    assert_eq!(accepted[0], blob_name_for(&png_bytes()).unwrap());
    assert_eq!(accepted[1], blob_name_for(&jpeg_bytes()).unwrap());
    assert_eq!(accepted[2], blob_name_for(&gif_bytes()).unwrap());
    assert_eq!(accepted[3], blob_name_for(&webp_bytes()).unwrap());
    assert!(blob_name_for(&bmp_bytes()).is_none());
    // Exactly the four accepted records were committed.
    assert_eq!(store.index.records.len(), 4);
    for (i, rec) in store.index.records.iter().enumerate() {
        assert_eq!(rec.owner_id, 7);
        assert_eq!(rec.blob, accepted[i]);
    }
}

#[test]
fn gallery_pages_are_disjoint_and_descending() {
    let mut store = Store::new();
    let mut payloads: Vec<Vec<u8>> = Vec::new();
    for i in 0..24u8 {
        let mut p = png_bytes();
        p.push(i);
        payloads.push(p);
    }
    let accepted = store.ingest(5, &payloads);
    assert_eq!(accepted.len(), 24);

    let page0 = store.gallery(5, Role::Standard, 5, 0, true).unwrap();
    let page1 = store.gallery(5, Role::Standard, 5, 12, true).unwrap();
    assert_eq!(page0.len(), 12);
    assert_eq!(page1.len(), 12);

    let mut all: Vec<(u32, Vec<u8>)> = Vec::new();
    all.extend(page0);
    all.extend(page1);
    // Strictly descending sequence ids, no gaps: 24 down to 1.
    for (i, (seq_id, blob)) in all.iter().enumerate() {
        assert_eq!(*seq_id, 24 - i as u32);
        assert_eq!(*blob, accepted[23 - i]);
    }
}

#[test]
fn gallery_anchor_beyond_end_is_empty() {
    let mut store = Store::new();
    store.ingest(5, &vec![png_bytes()]);
    let page = store.gallery(5, Role::Standard, 5, 100, true).unwrap();
    assert!(page.is_empty());
}

#[test]
fn gallery_forward_is_oldest_first() {
    let mut store = Store::new();
    let mut a = png_bytes();
    a.push(1);
    let mut b = png_bytes();
    b.push(2);
    let accepted = store.ingest(9, &vec![a, b]);
    let page = store.gallery(9, Role::Standard, 9, 0, false).unwrap();
    assert_eq!(page.len(), 2);
    assert_eq!(page[0].0, 1);
    assert_eq!(page[0].1, accepted[0]);
    assert_eq!(page[1].0, 2);
    assert_eq!(page[1].1, accepted[1]);
}

#[test]
fn gallery_needs_owner_or_elevated_role() {
    let mut store = Store::new();
    store.ingest(5, &vec![png_bytes()]);
    assert_eq!(
        store.gallery(6, Role::Standard, 5, 0, true).unwrap_err(),
        UploadError::Unauthorized
    );
    assert!(store.gallery(6, Role::Elevated, 5, 0, true).is_ok());
    assert!(store.gallery(5, Role::Standard, 5, 0, true).is_ok());
}

#[test]
fn delete_by_stranger_is_unauthorized_and_mutates_nothing() {
    let mut store = Store::new();
    store.ingest(1, &vec![png_bytes()]);
    let r = store.delete(1, 1, 2, Role::Standard);
    assert_eq!(r.unwrap_err(), UploadError::Unauthorized);
    assert_eq!(store.index.records.len(), 1);
    assert_eq!(store.blobs.names.len(), 1);
}

#[test]
fn delete_of_missing_record_is_not_found_and_mutates_nothing() {
    let mut store = Store::new();
    store.ingest(1, &vec![png_bytes()]);
    let r = store.delete(1, 99, 1, Role::Standard);
    assert_eq!(r.unwrap_err(), UploadError::NotFound);
    // Right sequence id under the wrong owner is just as absent.
    let r = store.delete(2, 1, 2, Role::Standard);
    assert_eq!(r.unwrap_err(), UploadError::NotFound);
    assert_eq!(store.index.records.len(), 1);
    assert_eq!(store.blobs.names.len(), 1);
}

#[test]
fn last_reference_deletes_blob() {
    let mut store = Store::new();
    let first = store.ingest(1, &vec![png_bytes()]);
    store.ingest(2, &vec![png_bytes()]);
    // Two records share one blob: deleting one keeps the bytes.
    let out = store.delete(1, 1, 1, Role::Standard).unwrap();
    assert_eq!(out.removed_blob, None);
    assert_eq!(out.notification, None);
    assert_eq!(store.blobs.names.len(), 1);
    assert_eq!(store.index.records.len(), 1);
    // Deleting the last reference removes the blob.
    let out = store.delete(2, 2, 2, Role::Standard).unwrap();
    assert_eq!(out.removed_blob, Some(first[0].clone()));
    assert_eq!(out.notification, None);
    assert!(store.blobs.names.is_empty());
    assert!(store.index.records.is_empty());
}

#[test]
fn elevated_delete_notifies_the_owner() {
    let mut store = Store::new();
    store.ingest(3, &vec![png_bytes()]);
    let out = store.delete(3, 1, 8, Role::Elevated).unwrap();
    let note = out.notification.unwrap();
    assert_eq!(note.target, 3);
    assert_eq!(note.actor, 8);
    assert_eq!(note.subject, 1);
}

#[test]
fn racing_physical_deletes_tolerate_each_other() {
    // Two deleters both decided the blob has no reference left; the
    // second physical delete is a harmless no-op, not an error.
    let mut blobs = BlobSet::new();
    let name = b"4caece539b039b16e16206ea2478f8c5ffb2ca05.png".to_vec();
    assert!(blobs.add(name.clone()));
    assert!(blobs.remove(&name));
    assert!(!blobs.remove(&name));
    assert!(blobs.names.is_empty());
}

#[test]
fn blob_store_write_dedups() {
    let mut blobs = BlobSet::new();
    let name = b"25c9b37ae36a0a08318d4dca7ca57ea98d776821.gif".to_vec();
    assert!(blobs.add(name.clone()));
    assert!(!blobs.add(name.clone()));
    assert_eq!(blobs.names.len(), 1);
    assert!(blobs.contains(&name));
}

#[test]
fn sequence_counter_is_strictly_increasing() {
    let mut counter = SequenceCounter::new();
    assert_eq!(counter.draw(), 1);
    assert_eq!(counter.draw(), 2);
    assert_eq!(counter.draw(), 3);
    assert_eq!(counter.value, 3);
}

#[test]
fn login_and_authorization_gate() {
    assert_eq!(require_login(None), Err(UploadError::Unauthenticated));
    let claim = Claim { uid: 4, role: Role::Standard };
    assert_eq!(require_login(Some(claim)), Ok(claim));
    assert_eq!(authorize(4, Role::Standard, 4), Ok(()));
    assert_eq!(
        authorize(4, Role::Standard, 5),
        Err(UploadError::Unauthorized)
    );
    assert_eq!(authorize(4, Role::Elevated, 5), Ok(()));
}

#[test]
fn pic_destination_decisions() {
    assert_eq!(
        pic_destination(PicPage::Inn, Some(3), 1, true),
        Ok(PicDest::InnIcon { iid: 3 })
    );
    assert_eq!(
        pic_destination(PicPage::Inn, Some(3), 1, false),
        Err(UploadError::Unauthorized)
    );
    assert_eq!(
        pic_destination(PicPage::Inn, None, 1, true),
        Err(UploadError::NotFound)
    );
    assert_eq!(
        pic_destination(PicPage::User, None, 1, false),
        Ok(PicDest::UserAvatar { uid: 1 })
    );
    assert_eq!(
        pic_destination(PicPage::Other, Some(3), 1, true),
        Err(UploadError::NotFound)
    );
}

#[test]
fn record_keys_are_big_endian_and_round_trip() {
    assert_eq!(encode_u32(0x01020304), vec![1, 2, 3, 4]);
    assert_eq!(encode_u32(0), vec![0, 0, 0, 0]);
    assert_eq!(encode_u32(u32::MAX), vec![255, 255, 255, 255]);
    let key = encode_record_key(0x00000102, 0xA1B2C3D4);
    assert_eq!(key, vec![0, 0, 1, 2, 0xA1, 0xB2, 0xC3, 0xD4]);
    assert_eq!(decode_sequence_id(&key), 0xA1B2C3D4);
}

#[test]
fn record_keys_order_as_their_pairs() {
    // Byte order of persisted keys follows (owner, sequence) order.
    let a = encode_record_key(1, 500);
    let b = encode_record_key(1, 501);
    let c = encode_record_key(2, 3);
    assert!(a < b);
    assert!(b < c);
}
