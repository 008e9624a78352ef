use library_backend::codec::{
    decode_book, decode_loan, decode_member, decode_reservation, encode_book, encode_loan,
    encode_member, encode_reservation, MAX_ENCODED_SIZE,
};
use library_backend::records::{Book, Loan, Member, Reservation};

fn sample_book() -> Book {
    Book {
        id: 7,
        title: "Dune".to_string(),
        author: "Frank Herbert".to_string(),
        genre: "SF".to_string(),
        publication_year: -44,
        isbn: "0001".to_string(),
        location: "Étagère ✓".to_string(),
        available: true,
        created_at: 1_700_000_000,
    }
}

#[test]
fn book_round_trip() {
    let b = sample_book();
    let bytes = encode_book(&b).unwrap();
    assert_eq!(decode_book(&bytes), Some(b));
}

#[test]
fn book_with_empty_strings_round_trip() {
    let b = Book {
        id: 0,
        title: String::new(),
        author: String::new(),
        genre: String::new(),
        publication_year: i32::MIN,
        isbn: String::new(),
        location: String::new(),
        available: false,
        created_at: u64::MAX,
    };
    let bytes = encode_book(&b).unwrap();
    assert_eq!(decode_book(&bytes), Some(b));
}

#[test]
fn member_round_trip() {
    let m = Member {
        id: 2,
        username: "alice".to_string(),
        phone_number: "+1 555 0100".to_string(),
        address: "日本".to_string(),
        created_at: 9,
    };
    let bytes = encode_member(&m).unwrap();
    assert_eq!(decode_member(&bytes), Some(m));
}

#[test]
fn loan_round_trip_with_and_without_return_date() {
    let mut l = Loan {
        id: 3,
        book_id: 1,
        member_id: 2,
        loan_date: 10,
        due_date: 1000,
        return_date: None,
        fine_bits: 1.25f64.to_bits(),
    };
    let bytes = encode_loan(&l).unwrap();
    assert_eq!(bytes.len(), 8 * 6 + 1);
    assert_eq!(decode_loan(&bytes), Some(Loan { ..l }));
    l.return_date = Some(500);
    let bytes = encode_loan(&l).unwrap();
    assert_eq!(bytes.len(), 8 * 7 + 1);
    assert_eq!(decode_loan(&bytes), Some(l));
}

#[test]
fn reservation_exact_layout() {
    let r = Reservation { id: 1, book_id: 2, member_id: 0x0102, reservation_date: u64::MAX };
    let bytes = encode_reservation(&r).unwrap();
    let mut expected = vec![1, 0, 0, 0, 0, 0, 0, 0, 2, 0, 0, 0, 0, 0, 0, 0];
    expected.extend_from_slice(&[2, 1, 0, 0, 0, 0, 0, 0]);
    expected.extend_from_slice(&[255; 8]);
    assert_eq!(bytes, expected);
    assert_eq!(decode_reservation(&bytes), Some(r));
}

#[test]
fn member_exact_layout() {
    let m = Member {
        id: 1,
        username: "a".to_string(),
        phone_number: String::new(),
        address: "é".to_string(),
        created_at: 5,
    };
    let bytes = encode_member(&m).unwrap();
    let mut expected = vec![1, 0, 0, 0, 0, 0, 0, 0];
    expected.extend_from_slice(&[1, 0, 0, 0, 0, 0, 0, 0, 0x61, 0, 0, 0]);
    expected.extend_from_slice(&[0, 0, 0, 0, 0, 0, 0, 0]);
    expected.extend_from_slice(&[1, 0, 0, 0, 0, 0, 0, 0, 0xE9, 0, 0, 0]);
    expected.extend_from_slice(&[5, 0, 0, 0, 0, 0, 0, 0]);
    assert_eq!(bytes, expected);
}

#[test]
fn oversized_book_is_refused() {
    let mut b = sample_book();
    b.title = "x".repeat(300);
    assert!(encode_book(&b).is_none());
    b.title = "x".repeat(10);
    assert!(encode_book(&b).unwrap().len() <= MAX_ENCODED_SIZE);
}

#[test]
fn malformed_bytes_are_refused() {
    let r = Reservation { id: 1, book_id: 2, member_id: 3, reservation_date: 4 };
    let mut bytes = encode_reservation(&r).unwrap();
    bytes.push(0);
    assert_eq!(decode_reservation(&bytes), None);
    bytes.truncate(31);
    assert_eq!(decode_reservation(&bytes), None);
    assert_eq!(decode_book(&vec![]), None);

    let mut m = encode_member(&Member {
        id: 1,
        username: "a".to_string(),
        phone_number: "b".to_string(),
        address: "c".to_string(),
        created_at: 2,
    })
    .unwrap();
    // A surrogate code point is no character.
    m[16] = 0x00;
    m[17] = 0xD8;
    assert_eq!(decode_member(&m), None);

    let mut l = encode_loan(&Loan {
        id: 1,
        book_id: 1,
        member_id: 1,
        loan_date: 1,
        due_date: 1,
        return_date: None,
        fine_bits: 0,
    })
    .unwrap();
    l[40] = 2;
    assert_eq!(decode_loan(&l), None);
}
