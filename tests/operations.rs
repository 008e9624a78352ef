use library_backend::library::Library;
use library_backend::records::{
    Book, BookPayload, Loan, LoanPayload, Member, MemberPayload, Message, Reservation,
    ReservationPayload,
};

fn book_payload(title: &str, author: &str, isbn: &str) -> BookPayload {
    BookPayload {
        title: title.to_string(),
        author: author.to_string(),
        genre: "Science fiction".to_string(),
        publication_year: 1965,
        isbn: isbn.to_string(),
        location: "Shelf A".to_string(),
        available: true,
    }
}

fn member_payload(username: &str) -> MemberPayload {
    MemberPayload {
        username: username.to_string(),
        phone_number: "555-0100".to_string(),
        address: "1 Main St".to_string(),
    }
}

fn loan_payload(book_id: u64, member_id: u64, due_date: u64) -> LoanPayload {
    LoanPayload { book_id, member_id, due_date, return_date: None, fine_bits: 0 }
}

#[test]
fn scenario_loan_survives_book_delete() {
    let mut lib = Library::new();
    let book = lib.create_book(book_payload("Dune", "Herbert", "0001"), 50).unwrap();
    assert_eq!(book.id, 1);
    assert_eq!(book.title, "Dune");
    assert_eq!(book.created_at, 50);
    let member = lib.create_member(member_payload("alice"), 60).unwrap();
    assert_eq!(member.id, 2);
    let loan = lib.create_loan(loan_payload(1, 2, 1000), 70).unwrap();
    assert_eq!(
        loan,
        Loan {
            id: 3,
            book_id: 1,
            member_id: 2,
            loan_date: 70,
            due_date: 1000,
            return_date: None,
            fine_bits: 0
        }
    );
    assert!(matches!(lib.delete_book(1), Ok(Message::Success(_))));
    assert_eq!(lib.get_book_loan_by_id(3), Ok(loan));
}

#[test]
fn ids_are_distinct_and_increasing_across_kinds() {
    let mut lib = Library::new();
    let b1 = lib.create_book(book_payload("A", "B", "1"), 1).unwrap().id;
    let m1 = lib.create_member(member_payload("m"), 1).unwrap().id;
    let b2 = lib.create_book(book_payload("C", "D", "2"), 1).unwrap().id;
    let l1 = lib.create_loan(loan_payload(b1, m1, 9), 1).unwrap().id;
    let r1 = lib
        .create_reservation(ReservationPayload { book_id: b2, member_id: m1 }, 1)
        .unwrap()
        .id;
    let ids = vec![b1, m1, b2, l1, r1];
    assert_eq!(ids, vec![1, 2, 3, 4, 5]);
}

#[test]
fn deleted_ids_are_not_reused() {
    let mut lib = Library::new();
    let b1 = lib.create_book(book_payload("A", "B", "1"), 1).unwrap().id;
    assert!(lib.delete_book(b1).is_ok());
    let b2 = lib.create_book(book_payload("A", "B", "1"), 1).unwrap().id;
    assert_eq!(b2, b1 + 1);
}

#[test]
fn invalid_payloads_are_rejected_without_change() {
    let mut lib = Library::new();
    assert!(matches!(
        lib.create_book(book_payload("", "B", "1"), 1),
        Err(Message::InvalidPayload(_))
    ));
    assert!(matches!(
        lib.create_book(book_payload("A", "", "1"), 1),
        Err(Message::InvalidPayload(_))
    ));
    assert!(matches!(
        lib.create_book(book_payload("A", "B", ""), 1),
        Err(Message::InvalidPayload(_))
    ));
    let mut bad_member = member_payload("u");
    bad_member.address = String::new();
    assert!(matches!(lib.create_member(bad_member, 1), Err(Message::InvalidPayload(_))));
    assert!(matches!(
        lib.create_loan(loan_payload(1, 2, 0), 1),
        Err(Message::InvalidPayload(_))
    ));
    assert!(matches!(
        lib.create_reservation(ReservationPayload { book_id: 0, member_id: 2 }, 1),
        Err(Message::InvalidPayload(_))
    ));
    assert!(matches!(
        lib.create_reservation(ReservationPayload { book_id: 1, member_id: 0 }, 1),
        Err(Message::InvalidPayload(_))
    ));
    assert!(matches!(lib.get_books(), Err(Message::NotFound(_))));
    // No id was consumed by the rejected calls.
    assert_eq!(lib.create_book(book_payload("A", "B", "1"), 1).unwrap().id, 1);
}

#[test]
fn invalid_payload_message_text() {
    let mut lib = Library::new();
    let err = lib.create_book(book_payload("", "B", "1"), 1).unwrap_err();
    assert_eq!(err.text(), "Ensure 'title', 'author', and 'isbn' are provided.");
}

#[test]
fn loan_with_unknown_references_is_not_found() {
    let mut lib = Library::new();
    let b = lib.create_book(book_payload("A", "B", "1"), 1).unwrap().id;
    let m = lib.create_member(member_payload("m"), 1).unwrap().id;
    let err = lib.create_loan(loan_payload(99, m, 5), 1).unwrap_err();
    assert_eq!(err, Message::NotFound("Book not found".to_string()));
    let err = lib.create_loan(loan_payload(b, 99, 5), 1).unwrap_err();
    assert_eq!(err, Message::NotFound("Member not found".to_string()));
    assert!(matches!(lib.get_book_loans(), Err(Message::NotFound(_))));
    let loan = lib.create_loan(loan_payload(b, m, 5), 1).unwrap();
    assert_eq!((loan.book_id, loan.member_id), (b, m));
}

#[test]
fn reservation_with_unknown_references_is_not_found() {
    let mut lib = Library::new();
    let b = lib.create_book(book_payload("A", "B", "1"), 1).unwrap().id;
    let m = lib.create_member(member_payload("m"), 1).unwrap().id;
    assert!(matches!(
        lib.create_reservation(ReservationPayload { book_id: 99, member_id: m }, 1),
        Err(Message::NotFound(_))
    ));
    assert!(matches!(
        lib.create_reservation(ReservationPayload { book_id: b, member_id: 99 }, 1),
        Err(Message::NotFound(_))
    ));
    assert!(matches!(lib.get_reservations(), Err(Message::NotFound(_))));
    let r = lib
        .create_reservation(ReservationPayload { book_id: b, member_id: m }, 7)
        .unwrap();
    assert_eq!(r, Reservation { id: 3, book_id: b, member_id: m, reservation_date: 7 });
}

#[test]
fn delete_is_one_shot_for_every_kind() {
    let mut lib = Library::new();
    let b = lib.create_book(book_payload("A", "B", "1"), 1).unwrap().id;
    let m = lib.create_member(member_payload("m"), 1).unwrap().id;
    let l = lib.create_loan(loan_payload(b, m, 5), 1).unwrap().id;
    let r = lib.create_reservation(ReservationPayload { book_id: b, member_id: m }, 1).unwrap().id;
    assert_eq!(lib.delete_loan(l), Ok(Message::Success("Loan deleted successfully".to_string())));
    assert_eq!(lib.delete_loan(l), Err(Message::NotFound("Loan not found".to_string())));
    assert!(matches!(lib.delete_reservation(r), Ok(Message::Success(_))));
    assert!(matches!(lib.delete_reservation(r), Err(Message::NotFound(_))));
    assert!(matches!(lib.delete_member(m), Ok(Message::Success(_))));
    assert!(matches!(lib.delete_member(m), Err(Message::NotFound(_))));
    assert!(matches!(lib.delete_book(b), Ok(Message::Success(_))));
    assert!(matches!(lib.delete_book(b), Err(Message::NotFound(_))));
    assert!(matches!(lib.get_book_by_id(b), Err(Message::NotFound(_))));
}

#[test]
fn empty_lists_are_not_found_then_hold_exactly_the_row() {
    let mut lib = Library::new();
    assert_eq!(lib.get_books(), Err(Message::NotFound("No books found".to_string())));
    assert_eq!(lib.get_members(), Err(Message::NotFound("No members found".to_string())));
    assert_eq!(lib.get_book_loans(), Err(Message::NotFound("No loans found".to_string())));
    assert_eq!(
        lib.get_reservations(),
        Err(Message::NotFound("No reservations found".to_string()))
    );
    let b = lib.create_book(book_payload("A", "B", "1"), 3).unwrap();
    let m = lib.create_member(member_payload("m"), 4).unwrap();
    assert_eq!(lib.get_books(), Ok(vec![b]));
    assert_eq!(lib.get_members(), Ok(vec![m]));
}

#[test]
fn list_is_ascending_by_id_after_deletes() {
    let mut lib = Library::new();
    for i in 0..5u64 {
        lib.create_member(member_payload(&format!("user{}", i)), i).unwrap();
    }
    lib.delete_member(3).unwrap();
    let ids: Vec<u64> = lib.get_members().unwrap().iter().map(|m| m.id).collect();
    assert_eq!(ids, vec![1, 2, 4, 5]);
    assert_eq!(lib.get_member_by_id(4).unwrap().username, "user3");
}

#[test]
fn update_keeps_id_and_creation_time() {
    let mut lib = Library::new();
    let b = lib.create_book(book_payload("A", "B", "1"), 11).unwrap();
    let mut p = book_payload("Dune Messiah", "Herbert", "0002");
    p.available = false;
    p.publication_year = 1969;
    let u = lib.update_book(b.id, p).unwrap();
    assert_eq!(
        u,
        Book {
            id: 1,
            title: "Dune Messiah".to_string(),
            author: "Herbert".to_string(),
            genre: "Science fiction".to_string(),
            publication_year: 1969,
            isbn: "0002".to_string(),
            location: "Shelf A".to_string(),
            available: false,
            created_at: 11,
        }
    );
    assert_eq!(lib.get_book_by_id(1), Ok(u));

    let m = lib.create_member(member_payload("m"), 12).unwrap();
    let um = lib.update_member(m.id, member_payload("bob")).unwrap();
    assert_eq!(
        um,
        Member {
            id: 2,
            username: "bob".to_string(),
            phone_number: "555-0100".to_string(),
            address: "1 Main St".to_string(),
            created_at: 12
        }
    );

    let l = lib.create_loan(loan_payload(1, 2, 100), 13).unwrap();
    let ul = lib
        .update_loan(
            l.id,
            LoanPayload {
                book_id: 77,
                member_id: 88,
                due_date: 200,
                return_date: Some(150),
                fine_bits: 2.5f64.to_bits(),
            },
        )
        .unwrap();
    assert_eq!((ul.id, ul.loan_date, ul.book_id, ul.member_id), (3, 13, 77, 88));
    assert_eq!(ul.return_date, Some(150));
    assert_eq!(f64::from_bits(ul.fine_bits), 2.5);

    let r = lib.create_reservation(ReservationPayload { book_id: 1, member_id: 2 }, 14).unwrap();
    let ur = lib
        .update_reservation(r.id, ReservationPayload { book_id: 5, member_id: 6 })
        .unwrap();
    assert_eq!(ur, Reservation { id: 4, book_id: 5, member_id: 6, reservation_date: 14 });
    assert_eq!(lib.get_reservation_by_id(4), Ok(ur));
}

#[test]
fn update_errors() {
    let mut lib = Library::new();
    assert_eq!(
        lib.update_book(1, book_payload("A", "B", "1")),
        Err(Message::NotFound("Book not found".to_string()))
    );
    lib.create_book(book_payload("A", "B", "1"), 1).unwrap();
    assert!(matches!(
        lib.update_book(1, book_payload("A", "", "1")),
        Err(Message::InvalidPayload(_))
    ));
    assert!(matches!(lib.update_member(1, member_payload("x")), Err(Message::NotFound(_))));
    assert!(matches!(lib.update_loan(1, loan_payload(1, 1, 0)), Err(Message::InvalidPayload(_))));
    assert!(matches!(lib.update_loan(1, loan_payload(1, 1, 3)), Err(Message::NotFound(_))));
    assert!(matches!(
        lib.update_reservation(1, ReservationPayload { book_id: 1, member_id: 1 }),
        Err(Message::NotFound(_))
    ));
    assert_eq!(lib.get_book_by_id(1).unwrap().title, "A");
}

#[test]
fn loan_update_does_not_recheck_references() {
    let mut lib = Library::new();
    let b = lib.create_book(book_payload("A", "B", "1"), 1).unwrap().id;
    let m = lib.create_member(member_payload("m"), 1).unwrap().id;
    let l = lib.create_loan(loan_payload(b, m, 5), 1).unwrap().id;
    let u = lib.update_loan(l, loan_payload(1000, 2000, 5)).unwrap();
    assert_eq!((u.book_id, u.member_id), (1000, 2000));
}

#[test]
fn oversized_book_is_refused_without_change() {
    let mut lib = Library::new();
    let big = "x".repeat(2000);
    let err = lib.create_book(book_payload(&big, "B", "1"), 1).unwrap_err();
    assert!(matches!(err, Message::Error(_)));
    assert!(matches!(lib.get_books(), Err(Message::NotFound(_))));
    let b = lib.create_book(book_payload("A", "B", "1"), 1).unwrap();
    assert_eq!(b.id, 1);
    let err = lib.update_book(1, book_payload("A", &big, "1")).unwrap_err();
    assert!(matches!(err, Message::Error(_)));
    assert_eq!(lib.get_book_by_id(1), Ok(b));
}

#[test]
fn oversized_member_is_refused_without_change() {
    let mut lib = Library::new();
    let mut p = member_payload("m");
    p.address = "a".repeat(1000);
    assert!(matches!(lib.create_member(p, 1), Err(Message::Error(_))));
    assert_eq!(lib.last_issued_id(), 0);
    let m = lib.create_member(member_payload("m"), 1).unwrap();
    let mut p = member_payload("n");
    p.phone_number = "5".repeat(300);
    assert!(matches!(lib.update_member(m.id, p), Err(Message::Error(_))));
    assert_eq!(lib.get_member_by_id(m.id), Ok(m));
}
