use vstd::prelude::*;

use crate::repository::Record;

verus! {

/// A catalogued book.
#[derive(Debug, PartialEq)]
pub struct Book {
    pub id: u64,
    pub title: String,
    pub author: String,
    pub genre: String,
    pub publication_year: i32,
    pub isbn: String,
    pub location: String,
    pub available: bool,
    pub created_at: u64,
}

/// A registered library member.
#[derive(Debug, PartialEq)]
pub struct Member {
    pub id: u64,
    pub username: String,
    pub phone_number: String,
    pub address: String,
    pub created_at: u64,
}

/// A book lent to a member. The fine is kept as the raw bit pattern of an
/// IEEE-754 double, which the library stores and returns unchanged.
#[derive(Debug, PartialEq)]
pub struct Loan {
    pub id: u64,
    pub book_id: u64,
    pub member_id: u64,
    pub loan_date: u64,
    pub due_date: u64,
    pub return_date: Option<u64>,
    pub fine_bits: u64,
}

/// A member's hold on a book.
#[derive(Debug, PartialEq, Clone, Copy)]
pub struct Reservation {
    pub id: u64,
    pub book_id: u64,
    pub member_id: u64,
    pub reservation_date: u64,
}

/// Caller-supplied fields of a book.
#[derive(Debug, PartialEq)]
pub struct BookPayload {
    pub title: String,
    pub author: String,
    pub genre: String,
    pub publication_year: i32,
    pub isbn: String,
    pub location: String,
    pub available: bool,
}

/// Caller-supplied fields of a member.
#[derive(Debug, PartialEq)]
pub struct MemberPayload {
    pub username: String,
    pub phone_number: String,
    pub address: String,
}

/// Caller-supplied fields of a loan.
#[derive(Debug, PartialEq)]
pub struct LoanPayload {
    pub book_id: u64,
    pub member_id: u64,
    pub due_date: u64,
    pub return_date: Option<u64>,
    pub fine_bits: u64,
}

/// Caller-supplied fields of a reservation.
#[derive(Debug, PartialEq, Clone, Copy)]
pub struct ReservationPayload {
    pub book_id: u64,
    pub member_id: u64,
}

/// Outcome messages of the operations.
#[derive(Debug, PartialEq)]
pub enum Message {
    Success(String),
    Error(String),
    NotFound(String),
    InvalidPayload(String),
}

impl Message {
    pub open spec fn is_success(&self) -> bool {
        self is Success
    }

    pub open spec fn is_error(&self) -> bool {
        self is Error
    }

    pub open spec fn is_not_found(&self) -> bool {
        self is NotFound
    }

    pub open spec fn is_invalid_payload(&self) -> bool {
        self is InvalidPayload
    }

    /// The text the message carries.
    pub fn text(&self) -> (r: String)
        ensures
            r@ == match self {
                Message::Success(s) => s@,
                Message::Error(s) => s@,
                Message::NotFound(s) => s@,
                Message::InvalidPayload(s) => s@,
            },
    {
        match self {
            Message::Success(s) => s.clone(),
            Message::Error(s) => s.clone(),
            Message::NotFound(s) => s.clone(),
            Message::InvalidPayload(s) => s.clone(),
        }
    }
}

/// A book payload is accepted when title, author and isbn are all non-empty.
pub open spec fn book_payload_valid(p: BookPayload) -> bool {
    p.title@.len() > 0 && p.author@.len() > 0 && p.isbn@.len() > 0
}

/// A member payload is accepted when username, phone number and address are all non-empty.
pub open spec fn member_payload_valid(p: MemberPayload) -> bool {
    p.username@.len() > 0 && p.phone_number@.len() > 0 && p.address@.len() > 0
}

/// A loan payload is accepted when it names a due date.
pub open spec fn loan_payload_valid(p: LoanPayload) -> bool {
    p.due_date != 0
}

/// A reservation payload is accepted when it names both a book and a member.
pub open spec fn reservation_payload_valid(p: ReservationPayload) -> bool {
    p.book_id != 0 && p.member_id != 0
}

pub fn check_book_payload(p: &BookPayload) -> (r: bool)
    ensures
        r == book_payload_valid(*p),
{
    !(p.title.as_str().is_empty() || p.author.as_str().is_empty() || p.isbn.as_str().is_empty())
}

pub fn check_member_payload(p: &MemberPayload) -> (r: bool)
    ensures
        r == member_payload_valid(*p),
{
    !(p.username.as_str().is_empty() || p.phone_number.as_str().is_empty()
        || p.address.as_str().is_empty())
}

pub fn check_loan_payload(p: &LoanPayload) -> (r: bool)
    ensures
        r == loan_payload_valid(*p),
{
    p.due_date != 0
}

pub fn check_reservation_payload(p: &ReservationPayload) -> (r: bool)
    ensures
        r == reservation_payload_valid(*p),
{
    p.book_id != 0 && p.member_id != 0
}

/// The book a valid payload creates under `id` at time `now`.
pub open spec fn new_book(id: u64, p: BookPayload, now: u64) -> Book {
    Book {
        id,
        title: p.title,
        author: p.author,
        genre: p.genre,
        publication_year: p.publication_year,
        isbn: p.isbn,
        location: p.location,
        available: p.available,
        created_at: now,
    }
}

/// `b` with every payload field overwritten; id and creation time kept.
pub open spec fn updated_book(b: Book, p: BookPayload) -> Book {
    Book {
        id: b.id,
        title: p.title,
        author: p.author,
        genre: p.genre,
        publication_year: p.publication_year,
        isbn: p.isbn,
        location: p.location,
        available: p.available,
        created_at: b.created_at,
    }
}

pub open spec fn new_member(id: u64, p: MemberPayload, now: u64) -> Member {
    Member {
        id,
        username: p.username,
        phone_number: p.phone_number,
        address: p.address,
        created_at: now,
    }
}

pub open spec fn updated_member(m: Member, p: MemberPayload) -> Member {
    Member {
        id: m.id,
        username: p.username,
        phone_number: p.phone_number,
        address: p.address,
        created_at: m.created_at,
    }
}

pub open spec fn new_loan(id: u64, p: LoanPayload, now: u64) -> Loan {
    Loan {
        id,
        book_id: p.book_id,
        member_id: p.member_id,
        loan_date: now,
        due_date: p.due_date,
        return_date: p.return_date,
        fine_bits: p.fine_bits,
    }
}

pub open spec fn updated_loan(l: Loan, p: LoanPayload) -> Loan {
    Loan {
        id: l.id,
        book_id: p.book_id,
        member_id: p.member_id,
        loan_date: l.loan_date,
        due_date: p.due_date,
        return_date: p.return_date,
        fine_bits: p.fine_bits,
    }
}

pub open spec fn new_reservation(id: u64, p: ReservationPayload, now: u64) -> Reservation {
    Reservation { id, book_id: p.book_id, member_id: p.member_id, reservation_date: now }
}

pub open spec fn updated_reservation(r: Reservation, p: ReservationPayload) -> Reservation {
    Reservation {
        id: r.id,
        book_id: p.book_id,
        member_id: p.member_id,
        reservation_date: r.reservation_date,
    }
}

impl Record for Book {
    open spec fn key(&self) -> u64 {
        self.id
    }

    fn id(&self) -> (r: u64) {
        self.id
    }

    fn duplicate(&self) -> (r: Self) {
        Book {
            id: self.id,
            title: self.title.clone(),
            author: self.author.clone(),
            genre: self.genre.clone(),
            publication_year: self.publication_year,
            isbn: self.isbn.clone(),
            location: self.location.clone(),
            available: self.available,
            created_at: self.created_at,
        }
    }
}

impl Record for Member {
    open spec fn key(&self) -> u64 {
        self.id
    }

    fn id(&self) -> (r: u64) {
        self.id
    }

    fn duplicate(&self) -> (r: Self) {
        Member {
            id: self.id,
            username: self.username.clone(),
            phone_number: self.phone_number.clone(),
            address: self.address.clone(),
            created_at: self.created_at,
        }
    }
}

impl Record for Loan {
    open spec fn key(&self) -> u64 {
        self.id
    }

    fn id(&self) -> (r: u64) {
        self.id
    }

    fn duplicate(&self) -> (r: Self) {
        Loan {
            id: self.id,
            book_id: self.book_id,
            member_id: self.member_id,
            loan_date: self.loan_date,
            due_date: self.due_date,
            return_date: self.return_date,
            fine_bits: self.fine_bits,
        }
    }
}

impl Record for Reservation {
    open spec fn key(&self) -> u64 {
        self.id
    }

    fn id(&self) -> (r: u64) {
        self.id
    }

    fn duplicate(&self) -> (r: Self) {
        *self
    }
}

} // verus!
