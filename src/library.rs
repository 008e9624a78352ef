use vstd::prelude::*;

use crate::records::{
    book_payload_valid, check_book_payload, check_loan_payload, check_member_payload,
    check_reservation_payload, loan_payload_valid, member_payload_valid, new_book, new_loan,
    new_member, new_reservation, reservation_payload_valid, updated_book, updated_loan,
    updated_member, updated_reservation, Book, BookPayload, Loan, LoanPayload, Member,
    MemberPayload, Message, Reservation, ReservationPayload,
};
use crate::codec::{book_bytes, encode_book, encode_member, member_bytes, MAX_ENCODED_SIZE};
use crate::repository::{has_key, Record, Repository};

verus! {

/// The whole service state: one shared identifier counter and one ordered
/// repository per entity kind.
pub struct Library {
    last_id: u64,
    books: Repository<Book>,
    members: Repository<Member>,
    loans: Repository<Loan>,
    reservations: Repository<Reservation>,
}

impl Library {
    /// The last identifier handed out (zero before the first).
    pub closed spec fn last_id(&self) -> u64 {
        self.last_id
    }

    pub closed spec fn books(&self) -> Seq<Book> {
        self.books@
    }

    pub closed spec fn members(&self) -> Seq<Member> {
        self.members@
    }

    pub closed spec fn loans(&self) -> Seq<Loan> {
        self.loans@
    }

    pub closed spec fn reservations(&self) -> Seq<Reservation> {
        self.reservations@
    }

    /// How many repositories hold a row with identifier `x`.
    pub open spec fn holders(&self, x: u64) -> int {
        (if has_key(self.books(), x) { 1int } else { 0int }) + (if has_key(self.members(), x) {
            1int
        } else {
            0int
        }) + (if has_key(self.loans(), x) { 1int } else { 0int }) + (if has_key(
            self.reservations(),
            x,
        ) {
            1int
        } else {
            0int
        })
    }

    /// Every repository is ordered by id, every id was handed out by the
    /// counter, and no id is held by two repositories.
    pub closed spec fn wf(&self) -> bool {
        &&& self.books.wf()
        &&& self.members.wf()
        &&& self.loans.wf()
        &&& self.reservations.wf()
        &&& forall|i: int| 0 <= i < self.books@.len() ==> self.books@[i].id <= self.last_id
        &&& forall|i: int| 0 <= i < self.members@.len() ==> self.members@[i].id <= self.last_id
        &&& forall|i: int| 0 <= i < self.loans@.len() ==> self.loans@[i].id <= self.last_id
        &&& forall|i: int|
            0 <= i < self.reservations@.len() ==> self.reservations@[i].id <= self.last_id
        &&& forall|x: u64| self.holders(x) <= 1
    }

    /// An empty library whose counter has not handed out any id yet.
    pub fn new() -> (r: Library)
        ensures
            r.wf(),
            r.last_id() == 0,
            r.books() == Seq::<Book>::empty(),
            r.members() == Seq::<Member>::empty(),
            r.loans() == Seq::<Loan>::empty(),
            r.reservations() == Seq::<Reservation>::empty(),
    {
        Library {
            last_id: 0,
            books: Repository::new(),
            members: Repository::new(),
            loans: Repository::new(),
            reservations: Repository::new(),
        }
    }

    /// The last identifier handed out; creating succeeds only while it is below `u64::MAX`.
    pub fn last_issued_id(&self) -> (r: u64)
        ensures
            r == self.last_id(),
    {
        self.last_id
    }

    /// Advances the shared counter and returns its new value.
    fn next_id(&mut self) -> (r: u64)
        requires
            old(self).last_id < u64::MAX,
        ensures
            r == old(self).last_id + 1,
            *final(self) == (Library { last_id: r, ..*old(self) }),
    {
        self.last_id = self.last_id + 1;
        self.last_id
    }

    /// Creates a book under the next identifier, stamped with `now`.
    pub fn create_book(&mut self, payload: BookPayload, now: u64) -> (r: Result<Book, Message>)
        requires
            old(self).wf(),
        ensures
            final(self).wf(),
            !book_payload_valid(payload) ==> r is Err && r->Err_0.is_invalid_payload()
                && *final(self) == *old(self),
            book_payload_valid(payload) && old(self).last_id() == u64::MAX ==> r is Err
                && r->Err_0.is_error() && *final(self) == *old(self),
            book_payload_valid(payload) && old(self).last_id() < u64::MAX && book_bytes(
                new_book((old(self).last_id() + 1) as u64, payload, now),
            ).len() > MAX_ENCODED_SIZE ==> r is Err && r->Err_0.is_error()
                && *final(self) == *old(self),
            book_payload_valid(payload) && old(self).last_id() < u64::MAX && book_bytes(
                new_book((old(self).last_id() + 1) as u64, payload, now),
            ).len() <= MAX_ENCODED_SIZE ==> {
                let x = new_book((old(self).last_id() + 1) as u64, payload, now);
                &&& r == Ok::<Book, Message>(x)
                &&& final(self).last_id() == old(self).last_id() + 1
                &&& final(self).books() == old(self).books().push(x)
                &&& final(self).members() == old(self).members()
                &&& final(self).loans() == old(self).loans()
                &&& final(self).reservations() == old(self).reservations()
                &&& !has_key(old(self).books(), x.id)
                &&& !has_key(old(self).members(), x.id)
                &&& !has_key(old(self).loans(), x.id)
                &&& !has_key(old(self).reservations(), x.id)
            },
    {
        if !check_book_payload(&payload) {
            return Err(
                Message::InvalidPayload(
                    "Ensure 'title', 'author', and 'isbn' are provided.".to_string(),
                ),
            );
        }
        if self.last_id == u64::MAX {
            return Err(Message::Error("Cannot increment ID counter".to_string()));
        }
        let id = self.last_id + 1;
        let row = Book {
            id,
            title: payload.title,
            author: payload.author,
            genre: payload.genre,
            publication_year: payload.publication_year,
            isbn: payload.isbn,
            location: payload.location,
            available: payload.available,
            created_at: now,
        };
        if encode_book(&row).is_none() {
            return Err(Message::Error("Book record exceeds the maximum encoded size".to_string()));
        }
        let id = self.next_id();
        self.books.append(row.duplicate());
        assert forall|x: u64| self.holders(x) <= 1 by {
            assert(old(self).holders(x) <= 1);
            assert(self.books.contains(x) <==> (old(self).books.contains(x) || x == id));
            if x == id {
                assert(!has_key(old(self).books(), x));
                assert(!has_key(old(self).members(), x));
                assert(!has_key(old(self).loans(), x));
                assert(!has_key(old(self).reservations(), x));
            }
        }
        Ok(row)
    }

    /// All books, ascending by id; `NotFound` when there are none.
    pub fn get_books(&self) -> (r: Result<Vec<Book>, Message>)
        requires
            self.wf(),
        ensures
            self.books().len() == 0 <==> (r is Err && r->Err_0.is_not_found()),
            self.books().len() > 0 ==> (r is Ok && r->Ok_0@ == self.books()),
    {
        let rows = self.books.rows();
        if rows.len() == 0 {
            Err(Message::NotFound("No books found".to_string()))
        } else {
            Ok(rows)
        }
    }

    /// The book with identifier `id`; `NotFound` when there is none.
    pub fn get_book_by_id(&self, id: u64) -> (r: Result<Book, Message>)
        requires
            self.wf(),
        ensures
            !has_key(self.books(), id) <==> (r is Err && r->Err_0.is_not_found()),
            has_key(self.books(), id) ==> r is Ok && exists|i: int|
                0 <= i < self.books().len() && self.books()[i] == r->Ok_0 && r->Ok_0.id == id,
    {
        match self.books.get(id) {
            Some(x) => Ok(x),
            None => Err(Message::NotFound("Book not found".to_string())),
        }
    }

    /// Overwrites every payload field of book `id`, keeping its id and creation time.
    pub fn update_book(&mut self, id: u64, payload: BookPayload) -> (r: Result<Book, Message>)
        requires
            old(self).wf(),
        ensures
            final(self).wf(),
            final(self).last_id() == old(self).last_id(),
            final(self).members() == old(self).members(),
            final(self).loans() == old(self).loans(),
            final(self).reservations() == old(self).reservations(),
            !book_payload_valid(payload) ==> r is Err && r->Err_0.is_invalid_payload()
                && *final(self) == *old(self),
            book_payload_valid(payload) && !has_key(old(self).books(), id) ==> r is Err
                && r->Err_0.is_not_found() && *final(self) == *old(self),
            book_payload_valid(payload) && has_key(old(self).books(), id) ==> exists|i: int|
                0 <= i < old(self).books().len() && old(self).books()[i].id == id && {
                    let u = updated_book(old(self).books()[i], payload);
                    &&& book_bytes(u).len() <= MAX_ENCODED_SIZE ==> r == Ok::<Book, Message>(u)
                        && final(self).books() == old(self).books().update(i, u)
                    &&& book_bytes(u).len() > MAX_ENCODED_SIZE ==> r is Err
                        && r->Err_0.is_error() && *final(self) == *old(self)
                },
    {
        if !check_book_payload(&payload) {
            return Err(
                Message::InvalidPayload(
                    "Ensure 'title', 'author', and 'isbn' are provided.".to_string(),
                ),
            );
        }
        match self.books.position(id) {
            Some(i) => {
                let prev = self.books.at(i);
                let row = Book {
                    id: prev.id,
                    title: payload.title,
                    author: payload.author,
                    genre: payload.genre,
                    publication_year: payload.publication_year,
                    isbn: payload.isbn,
                    location: payload.location,
                    available: payload.available,
                    created_at: prev.created_at,
                };
                if encode_book(&row).is_none() {
                    return Err(
                        Message::Error("Book record exceeds the maximum encoded size".to_string()),
                    );
                }
                self.books.replace(i, row.duplicate());
                assert forall|x: u64| self.holders(x) <= 1 by {
                    assert(old(self).holders(x) <= 1);
                }
                Ok(row)
            },
            None => Err(Message::NotFound("Book not found".to_string())),
        }
    }

    /// Removes book `id`; `NotFound` when there is none.
    pub fn delete_book(&mut self, id: u64) -> (r: Result<Message, Message>)
        requires
            old(self).wf(),
        ensures
            final(self).wf(),
            final(self).last_id() == old(self).last_id(),
            final(self).members() == old(self).members(),
            final(self).loans() == old(self).loans(),
            final(self).reservations() == old(self).reservations(),
            has_key(old(self).books(), id) ==> r is Ok && r->Ok_0.is_success() && exists|i: int|
                0 <= i < old(self).books().len() && old(self).books()[i].id == id
                    && final(self).books() == old(self).books().remove(i),
            !has_key(old(self).books(), id) ==> r is Err && r->Err_0.is_not_found()
                && final(self).books() == old(self).books(),
            !has_key(final(self).books(), id),
    {
        let removed = self.books.remove(id);
        assert forall|x: u64| self.holders(x) <= 1 by {
            assert(old(self).holders(x) <= 1);
        }
        if removed {
            assert forall|j: int| 0 <= j < self.books@.len() implies self.books@[j].id
                <= self.last_id by {
                assert(old(self).books@.contains(self.books@[j]));
            }
            Ok(Message::Success("Book deleted successfully".to_string()))
        } else {
            Err(Message::NotFound("Book not found".to_string()))
        }
    }

    /// Creates a member under the next identifier, stamped with `now`.
    pub fn create_member(&mut self, payload: MemberPayload, now: u64) -> (r: Result<
        Member,
        Message,
    >)
        requires
            old(self).wf(),
        ensures
            final(self).wf(),
            !member_payload_valid(payload) ==> r is Err && r->Err_0.is_invalid_payload()
                && *final(self) == *old(self),
            member_payload_valid(payload) && old(self).last_id() == u64::MAX ==> r is Err
                && r->Err_0.is_error() && *final(self) == *old(self),
            member_payload_valid(payload) && old(self).last_id() < u64::MAX && member_bytes(
                new_member((old(self).last_id() + 1) as u64, payload, now),
            ).len() > MAX_ENCODED_SIZE ==> r is Err && r->Err_0.is_error()
                && *final(self) == *old(self),
            member_payload_valid(payload) && old(self).last_id() < u64::MAX && member_bytes(
                new_member((old(self).last_id() + 1) as u64, payload, now),
            ).len() <= MAX_ENCODED_SIZE ==> {
                let x = new_member((old(self).last_id() + 1) as u64, payload, now);
                &&& r == Ok::<Member, Message>(x)
                &&& final(self).last_id() == old(self).last_id() + 1
                &&& final(self).members() == old(self).members().push(x)
                &&& final(self).books() == old(self).books()
                &&& final(self).loans() == old(self).loans()
                &&& final(self).reservations() == old(self).reservations()
                &&& !has_key(old(self).books(), x.id)
                &&& !has_key(old(self).members(), x.id)
                &&& !has_key(old(self).loans(), x.id)
                &&& !has_key(old(self).reservations(), x.id)
            },
    {
        if !check_member_payload(&payload) {
            return Err(
                Message::InvalidPayload(
                    "Ensure 'username', 'phone_number', and 'address' are provided.".to_string(),
                ),
            );
        }
        if self.last_id == u64::MAX {
            return Err(Message::Error("Cannot increment ID counter".to_string()));
        }
        let id = self.last_id + 1;
        let row = Member {
            id,
            username: payload.username,
            phone_number: payload.phone_number,
            address: payload.address,
            created_at: now,
        };
        if encode_member(&row).is_none() {
            return Err(
                Message::Error(
                    "Member record exceeds the maximum encoded size".to_string(),
                ),
            );
        }
        let id = self.next_id();
        self.members.append(row.duplicate());
        assert forall|x: u64| self.holders(x) <= 1 by {
            assert(old(self).holders(x) <= 1);
            assert(self.members.contains(x) <==> (old(self).members.contains(x) || x == id));
            if x == id {
                assert(!has_key(old(self).books(), x));
                assert(!has_key(old(self).members(), x));
                assert(!has_key(old(self).loans(), x));
                assert(!has_key(old(self).reservations(), x));
            }
        }
        Ok(row)
    }

    /// All members, ascending by id; `NotFound` when there are none.
    pub fn get_members(&self) -> (r: Result<Vec<Member>, Message>)
        requires
            self.wf(),
        ensures
            self.members().len() == 0 <==> (r is Err && r->Err_0.is_not_found()),
            self.members().len() > 0 ==> (r is Ok && r->Ok_0@ == self.members()),
    {
        let rows = self.members.rows();
        if rows.len() == 0 {
            Err(Message::NotFound("No members found".to_string()))
        } else {
            Ok(rows)
        }
    }

    /// The member with identifier `id`; `NotFound` when there is none.
    pub fn get_member_by_id(&self, id: u64) -> (r: Result<Member, Message>)
        requires
            self.wf(),
        ensures
            !has_key(self.members(), id) <==> (r is Err && r->Err_0.is_not_found()),
            has_key(self.members(), id) ==> r is Ok && exists|i: int|
                0 <= i < self.members().len() && self.members()[i] == r->Ok_0 && r->Ok_0.id == id,
    {
        match self.members.get(id) {
            Some(x) => Ok(x),
            None => Err(Message::NotFound("Member not found".to_string())),
        }
    }

    /// Overwrites every payload field of member `id`, keeping its id and creation time.
    pub fn update_member(&mut self, id: u64, payload: MemberPayload) -> (r: Result<Member, Message>)
        requires
            old(self).wf(),
        ensures
            final(self).wf(),
            final(self).last_id() == old(self).last_id(),
            final(self).books() == old(self).books(),
            final(self).loans() == old(self).loans(),
            final(self).reservations() == old(self).reservations(),
            !member_payload_valid(payload) ==> r is Err && r->Err_0.is_invalid_payload()
                && *final(self) == *old(self),
            member_payload_valid(payload) && !has_key(old(self).members(), id) ==> r is Err
                && r->Err_0.is_not_found() && *final(self) == *old(self),
            member_payload_valid(payload) && has_key(old(self).members(), id) ==> exists|i: int|
                0 <= i < old(self).members().len() && old(self).members()[i].id == id && {
                    let u = updated_member(old(self).members()[i], payload);
                    &&& member_bytes(u).len() <= MAX_ENCODED_SIZE ==> r == Ok::<Member, Message>(u)
                        && final(self).members() == old(self).members().update(i, u)
                    &&& member_bytes(u).len() > MAX_ENCODED_SIZE ==> r is Err
                        && r->Err_0.is_error() && *final(self) == *old(self)
                },
    {
        if !check_member_payload(&payload) {
            return Err(
                Message::InvalidPayload(
                    "Ensure 'username', 'phone_number', and 'address' are provided.".to_string(),
                ),
            );
        }
        match self.members.position(id) {
            Some(i) => {
                let prev = self.members.at(i);
                let row = Member {
                    id: prev.id,
                    username: payload.username,
                    phone_number: payload.phone_number,
                    address: payload.address,
                    created_at: prev.created_at,
                };
                if encode_member(&row).is_none() {
                    return Err(
                        Message::Error("Member record exceeds the maximum encoded size".to_string()),
                    );
                }
                self.members.replace(i, row.duplicate());
                assert forall|x: u64| self.holders(x) <= 1 by {
                    assert(old(self).holders(x) <= 1);
                }
                Ok(row)
            },
            None => Err(Message::NotFound("Member not found".to_string())),
        }
    }

    /// Removes member `id`; `NotFound` when there is none.
    pub fn delete_member(&mut self, id: u64) -> (r: Result<Message, Message>)
        requires
            old(self).wf(),
        ensures
            final(self).wf(),
            final(self).last_id() == old(self).last_id(),
            final(self).books() == old(self).books(),
            final(self).loans() == old(self).loans(),
            final(self).reservations() == old(self).reservations(),
            has_key(old(self).members(), id) ==> r is Ok && r->Ok_0.is_success() && exists|i: int|
                0 <= i < old(self).members().len() && old(self).members()[i].id == id
                    && final(self).members() == old(self).members().remove(i),
            !has_key(old(self).members(), id) ==> r is Err && r->Err_0.is_not_found()
                && final(self).members() == old(self).members(),
            !has_key(final(self).members(), id),
    {
        let removed = self.members.remove(id);
        assert forall|x: u64| self.holders(x) <= 1 by {
            assert(old(self).holders(x) <= 1);
        }
        if removed {
            assert forall|j: int| 0 <= j < self.members@.len() implies self.members@[j].id
                <= self.last_id by {
                assert(old(self).members@.contains(self.members@[j]));
            }
            Ok(Message::Success("Member deleted successfully".to_string()))
        } else {
            Err(Message::NotFound("Member not found".to_string()))
        }
    }

    /// Creates a loan under the next identifier, stamped with `now`.
    pub fn create_loan(&mut self, payload: LoanPayload, now: u64) -> (r: Result<Loan, Message>)
        requires
            old(self).wf(),
        ensures
            final(self).wf(),
            !loan_payload_valid(payload) ==> r is Err && r->Err_0.is_invalid_payload()
                && *final(self) == *old(self),
            loan_payload_valid(payload) && !(has_key(old(self).books(), payload.book_id) && has_key(
                old(self).members(),
                payload.member_id,
            )) ==> r is Err && r->Err_0.is_not_found() && *final(self) == *old(self),
            loan_payload_valid(payload) && has_key(old(self).books(), payload.book_id) && has_key(
                old(self).members(),
                payload.member_id,
            ) && old(self).last_id() == u64::MAX ==> r is Err
                && r->Err_0.is_error() && *final(self) == *old(self),
            loan_payload_valid(payload) && has_key(old(self).books(), payload.book_id) && has_key(
                old(self).members(),
                payload.member_id,
            ) && old(self).last_id() < u64::MAX ==> {
                let x = new_loan((old(self).last_id() + 1) as u64, payload, now);
                &&& r == Ok::<Loan, Message>(x)
                &&& final(self).last_id() == old(self).last_id() + 1
                &&& final(self).loans() == old(self).loans().push(x)
                &&& final(self).books() == old(self).books()
                &&& final(self).members() == old(self).members()
                &&& final(self).reservations() == old(self).reservations()
                &&& !has_key(old(self).books(), x.id)
                &&& !has_key(old(self).members(), x.id)
                &&& !has_key(old(self).loans(), x.id)
                &&& !has_key(old(self).reservations(), x.id)
            },
    {
        if !check_loan_payload(&payload) {
            return Err(Message::InvalidPayload("Ensure 'due_date' is provided.".to_string()));
        }
        if self.books.position(payload.book_id).is_none() {
            return Err(Message::NotFound("Book not found".to_string()));
        }
        if self.members.position(payload.member_id).is_none() {
            return Err(Message::NotFound("Member not found".to_string()));
        }
        if self.last_id == u64::MAX {
            return Err(Message::Error("Cannot increment ID counter".to_string()));
        }
        let id = self.last_id + 1;
        let row = Loan {
            id,
            book_id: payload.book_id,
            member_id: payload.member_id,
            loan_date: now,
            due_date: payload.due_date,
            return_date: payload.return_date,
            fine_bits: payload.fine_bits,
        };
        let id = self.next_id();
        self.loans.append(row.duplicate());
        assert forall|x: u64| self.holders(x) <= 1 by {
            assert(old(self).holders(x) <= 1);
            assert(self.loans.contains(x) <==> (old(self).loans.contains(x) || x == id));
            if x == id {
                assert(!has_key(old(self).books(), x));
                assert(!has_key(old(self).members(), x));
                assert(!has_key(old(self).loans(), x));
                assert(!has_key(old(self).reservations(), x));
            }
        }
        Ok(row)
    }

    /// All loans, ascending by id; `NotFound` when there are none.
    pub fn get_book_loans(&self) -> (r: Result<Vec<Loan>, Message>)
        requires
            self.wf(),
        ensures
            self.loans().len() == 0 <==> (r is Err && r->Err_0.is_not_found()),
            self.loans().len() > 0 ==> (r is Ok && r->Ok_0@ == self.loans()),
    {
        let rows = self.loans.rows();
        if rows.len() == 0 {
            Err(Message::NotFound("No loans found".to_string()))
        } else {
            Ok(rows)
        }
    }

    /// The loan with identifier `id`; `NotFound` when there is none.
    pub fn get_book_loan_by_id(&self, id: u64) -> (r: Result<Loan, Message>)
        requires
            self.wf(),
        ensures
            !has_key(self.loans(), id) <==> (r is Err && r->Err_0.is_not_found()),
            has_key(self.loans(), id) ==> r is Ok && exists|i: int|
                0 <= i < self.loans().len() && self.loans()[i] == r->Ok_0 && r->Ok_0.id == id,
    {
        match self.loans.get(id) {
            Some(x) => Ok(x),
            None => Err(Message::NotFound("Loan not found".to_string())),
        }
    }

    /// Overwrites every payload field of loan `id`, keeping its id and creation time.
    pub fn update_loan(&mut self, id: u64, payload: LoanPayload) -> (r: Result<Loan, Message>)
        requires
            old(self).wf(),
        ensures
            final(self).wf(),
            final(self).last_id() == old(self).last_id(),
            final(self).books() == old(self).books(),
            final(self).members() == old(self).members(),
            final(self).reservations() == old(self).reservations(),
            !loan_payload_valid(payload) ==> r is Err && r->Err_0.is_invalid_payload()
                && *final(self) == *old(self),
            loan_payload_valid(payload) && !has_key(old(self).loans(), id) ==> r is Err
                && r->Err_0.is_not_found() && *final(self) == *old(self),
            loan_payload_valid(payload) && has_key(old(self).loans(), id) ==> exists|i: int|
                0 <= i < old(self).loans().len() && old(self).loans()[i].id == id && {
                    let u = updated_loan(old(self).loans()[i], payload);
                    &&& r == Ok::<Loan, Message>(u)
                    &&& final(self).loans() == old(self).loans().update(i, u)
                },
    {
        if !check_loan_payload(&payload) {
            return Err(Message::InvalidPayload("Ensure 'due_date' is provided.".to_string()));
        }
        match self.loans.position(id) {
            Some(i) => {
                let prev = self.loans.at(i);
                let row = Loan {
                    id: prev.id,
                    book_id: payload.book_id,
                    member_id: payload.member_id,
                    loan_date: prev.loan_date,
                    due_date: payload.due_date,
                    return_date: payload.return_date,
                    fine_bits: payload.fine_bits,
                };
                self.loans.replace(i, row.duplicate());
                assert forall|x: u64| self.holders(x) <= 1 by {
                    assert(old(self).holders(x) <= 1);
                }
                Ok(row)
            },
            None => Err(Message::NotFound("Loan not found".to_string())),
        }
    }

    /// Removes loan `id`; `NotFound` when there is none.
    pub fn delete_loan(&mut self, id: u64) -> (r: Result<Message, Message>)
        requires
            old(self).wf(),
        ensures
            final(self).wf(),
            final(self).last_id() == old(self).last_id(),
            final(self).books() == old(self).books(),
            final(self).members() == old(self).members(),
            final(self).reservations() == old(self).reservations(),
            has_key(old(self).loans(), id) ==> r is Ok && r->Ok_0.is_success() && exists|i: int|
                0 <= i < old(self).loans().len() && old(self).loans()[i].id == id
                    && final(self).loans() == old(self).loans().remove(i),
            !has_key(old(self).loans(), id) ==> r is Err && r->Err_0.is_not_found()
                && final(self).loans() == old(self).loans(),
            !has_key(final(self).loans(), id),
    {
        let removed = self.loans.remove(id);
        assert forall|x: u64| self.holders(x) <= 1 by {
            assert(old(self).holders(x) <= 1);
        }
        if removed {
            assert forall|j: int| 0 <= j < self.loans@.len() implies self.loans@[j].id
                <= self.last_id by {
                assert(old(self).loans@.contains(self.loans@[j]));
            }
            Ok(Message::Success("Loan deleted successfully".to_string()))
        } else {
            Err(Message::NotFound("Loan not found".to_string()))
        }
    }

    /// Creates a reservation under the next identifier, stamped with `now`.
    pub fn create_reservation(&mut self, payload: ReservationPayload, now: u64) -> (r: Result<Reservation, Message>)
        requires
            old(self).wf(),
        ensures
            final(self).wf(),
            !reservation_payload_valid(payload) ==> r is Err && r->Err_0.is_invalid_payload()
                && *final(self) == *old(self),
            reservation_payload_valid(payload) && !(has_key(old(self).books(), payload.book_id) && has_key(
                old(self).members(),
                payload.member_id,
            )) ==> r is Err && r->Err_0.is_not_found() && *final(self) == *old(self),
            reservation_payload_valid(payload) && has_key(old(self).books(), payload.book_id) && has_key(
                old(self).members(),
                payload.member_id,
            ) && old(self).last_id() == u64::MAX ==> r is Err
                && r->Err_0.is_error() && *final(self) == *old(self),
            reservation_payload_valid(payload) && has_key(old(self).books(), payload.book_id) && has_key(
                old(self).members(),
                payload.member_id,
            ) && old(self).last_id() < u64::MAX ==> {
                let x = new_reservation((old(self).last_id() + 1) as u64, payload, now);
                &&& r == Ok::<Reservation, Message>(x)
                &&& final(self).last_id() == old(self).last_id() + 1
                &&& final(self).reservations() == old(self).reservations().push(x)
                &&& final(self).books() == old(self).books()
                &&& final(self).members() == old(self).members()
                &&& final(self).loans() == old(self).loans()
                &&& !has_key(old(self).books(), x.id)
                &&& !has_key(old(self).members(), x.id)
                &&& !has_key(old(self).loans(), x.id)
                &&& !has_key(old(self).reservations(), x.id)
            },
    {
        if !check_reservation_payload(&payload) {
            return Err(
                Message::InvalidPayload(
                    "Ensure 'book_id' and 'member_id' are provided.".to_string(),
                ),
            );
        }
        if self.books.position(payload.book_id).is_none() {
            return Err(Message::NotFound("Book not found".to_string()));
        }
        if self.members.position(payload.member_id).is_none() {
            return Err(Message::NotFound("Member not found".to_string()));
        }
        if self.last_id == u64::MAX {
            return Err(Message::Error("Cannot increment ID counter".to_string()));
        }
        let id = self.last_id + 1;
        let row = Reservation {
            id,
            book_id: payload.book_id,
            member_id: payload.member_id,
            reservation_date: now,
        };
        let id = self.next_id();
        self.reservations.append(row.duplicate());
        assert forall|x: u64| self.holders(x) <= 1 by {
            assert(old(self).holders(x) <= 1);
            assert(self.reservations.contains(x) <==> (old(self).reservations.contains(x) || x == id));
            if x == id {
                assert(!has_key(old(self).books(), x));
                assert(!has_key(old(self).members(), x));
                assert(!has_key(old(self).loans(), x));
                assert(!has_key(old(self).reservations(), x));
            }
        }
        Ok(row)
    }

    /// All reservations, ascending by id; `NotFound` when there are none.
    pub fn get_reservations(&self) -> (r: Result<Vec<Reservation>, Message>)
        requires
            self.wf(),
        ensures
            self.reservations().len() == 0 <==> (r is Err && r->Err_0.is_not_found()),
            self.reservations().len() > 0 ==> (r is Ok && r->Ok_0@ == self.reservations()),
    {
        let rows = self.reservations.rows();
        if rows.len() == 0 {
            Err(Message::NotFound("No reservations found".to_string()))
        } else {
            Ok(rows)
        }
    }

    /// The reservation with identifier `id`; `NotFound` when there is none.
    pub fn get_reservation_by_id(&self, id: u64) -> (r: Result<Reservation, Message>)
        requires
            self.wf(),
        ensures
            !has_key(self.reservations(), id) <==> (r is Err && r->Err_0.is_not_found()),
            has_key(self.reservations(), id) ==> r is Ok && exists|i: int|
                0 <= i < self.reservations().len() && self.reservations()[i] == r->Ok_0 && r->Ok_0.id == id,
    {
        match self.reservations.get(id) {
            Some(x) => Ok(x),
            None => Err(Message::NotFound("Reservation not found".to_string())),
        }
    }

    /// Overwrites every payload field of reservation `id`, keeping its id and creation time.
    pub fn update_reservation(&mut self, id: u64, payload: ReservationPayload) -> (r: Result<Reservation, Message>)
        requires
            old(self).wf(),
        ensures
            final(self).wf(),
            final(self).last_id() == old(self).last_id(),
            final(self).books() == old(self).books(),
            final(self).members() == old(self).members(),
            final(self).loans() == old(self).loans(),
            !reservation_payload_valid(payload) ==> r is Err && r->Err_0.is_invalid_payload()
                && *final(self) == *old(self),
            reservation_payload_valid(payload) && !has_key(old(self).reservations(), id) ==> r is Err
                && r->Err_0.is_not_found() && *final(self) == *old(self),
            reservation_payload_valid(payload) && has_key(old(self).reservations(), id) ==> exists|i: int|
                0 <= i < old(self).reservations().len() && old(self).reservations()[i].id == id && {
                    let u = updated_reservation(old(self).reservations()[i], payload);
                    &&& r == Ok::<Reservation, Message>(u)
                    &&& final(self).reservations() == old(self).reservations().update(i, u)
                },
    {
        if !check_reservation_payload(&payload) {
            return Err(
                Message::InvalidPayload(
                    "Ensure 'book_id' and 'member_id' are provided.".to_string(),
                ),
            );
        }
        match self.reservations.position(id) {
            Some(i) => {
                let prev = self.reservations.at(i);
                let row = Reservation {
                    id: prev.id,
                    book_id: payload.book_id,
                    member_id: payload.member_id,
                    reservation_date: prev.reservation_date,
                };
                self.reservations.replace(i, row.duplicate());
                assert forall|x: u64| self.holders(x) <= 1 by {
                    assert(old(self).holders(x) <= 1);
                }
                Ok(row)
            },
            None => Err(Message::NotFound("Reservation not found".to_string())),
        }
    }

    /// Removes reservation `id`; `NotFound` when there is none.
    pub fn delete_reservation(&mut self, id: u64) -> (r: Result<Message, Message>)
        requires
            old(self).wf(),
        ensures
            final(self).wf(),
            final(self).last_id() == old(self).last_id(),
            final(self).books() == old(self).books(),
            final(self).members() == old(self).members(),
            final(self).loans() == old(self).loans(),
            has_key(old(self).reservations(), id) ==> r is Ok && r->Ok_0.is_success() && exists|i: int|
                0 <= i < old(self).reservations().len() && old(self).reservations()[i].id == id
                    && final(self).reservations() == old(self).reservations().remove(i),
            !has_key(old(self).reservations(), id) ==> r is Err && r->Err_0.is_not_found()
                && final(self).reservations() == old(self).reservations(),
            !has_key(final(self).reservations(), id),
    {
        let removed = self.reservations.remove(id);
        assert forall|x: u64| self.holders(x) <= 1 by {
            assert(old(self).holders(x) <= 1);
        }
        if removed {
            assert forall|j: int| 0 <= j < self.reservations@.len() implies self.reservations@[j].id
                <= self.last_id by {
                assert(old(self).reservations@.contains(self.reservations@[j]));
            }
            Ok(Message::Success("Reservation deleted successfully".to_string()))
        } else {
            Err(Message::NotFound("Reservation not found".to_string()))
        }
    }
}

/// Identifiers are unique across all four kinds, and every identifier in use
/// is at most the counter's last value. Since each successful create takes
/// `last_id() + 1` and advances the counter to it, ids come out strictly
/// increasing in creation order and never collide with a live row.
pub proof fn lemma_ids_unique(lib: Library)
    requires
        lib.wf(),
    ensures
        forall|x: u64| lib.holders(x) <= 1,
        forall|i: int| 0 <= i < lib.books().len() ==> lib.books()[i].id <= lib.last_id(),
        forall|i: int| 0 <= i < lib.members().len() ==> lib.members()[i].id <= lib.last_id(),
        forall|i: int| 0 <= i < lib.loans().len() ==> lib.loans()[i].id <= lib.last_id(),
        forall|i: int|
            0 <= i < lib.reservations().len() ==> lib.reservations()[i].id <= lib.last_id(),
        forall|i: int, j: int|
            0 <= i < j < lib.books().len() ==> lib.books()[i].id < lib.books()[j].id,
        forall|i: int, j: int|
            0 <= i < j < lib.members().len() ==> lib.members()[i].id < lib.members()[j].id,
        forall|i: int, j: int|
            0 <= i < j < lib.loans().len() ==> lib.loans()[i].id < lib.loans()[j].id,
        forall|i: int, j: int|
            0 <= i < j < lib.reservations().len() ==> lib.reservations()[i].id
                < lib.reservations()[j].id,
{
}

/// An update never changes a row's identifier or its creation timestamp,
/// whatever the payload holds.
pub proof fn lemma_update_keeps_identity(
    b: Book,
    bp: BookPayload,
    m: Member,
    mp: MemberPayload,
    l: Loan,
    lp: LoanPayload,
    r: Reservation,
    rp: ReservationPayload,
)
    ensures
        updated_book(b, bp).id == b.id,
        updated_book(b, bp).created_at == b.created_at,
        updated_member(m, mp).id == m.id,
        updated_member(m, mp).created_at == m.created_at,
        updated_loan(l, lp).id == l.id,
        updated_loan(l, lp).loan_date == l.loan_date,
        updated_reservation(r, rp).id == r.id,
        updated_reservation(r, rp).reservation_date == r.reservation_date,
{
}

} // verus!
