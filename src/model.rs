//! The state of the books as seen from outside: per book, the bid and ask
//! sides as prices and aggregate sizes, and the resting orders by id; and
//! how each command moves that state.
use vstd::prelude::*;
use crate::utils::MAX_BOOKS;

verus! {

/// A price level as seen from outside: its price and aggregate size.
pub struct Depth {
    pub price: int,
    pub size: int,
}

/// A resting order as seen from outside: its book, price and quantity.
pub struct Resting {
    pub book: int,
    pub price: int,
    pub qty: int,
}

/// A book as seen from outside: both sides, ascending by price.
pub struct BookModel {
    pub bids: Seq<Depth>,
    pub asks: Seq<Depth>,
}

/// The state of all books and resting orders, without pool handles.
pub struct Model {
    pub books: Seq<BookModel>,
    pub orders: Map<u32, Resting>,
}

/// Index of the last level priced `p`, or -1 when none is.
pub open spec fn depth_index(s: Seq<Depth>, p: int) -> int
    decreases s.len(),
{
    if s.len() == 0 {
        -1
    } else if s.last().price == p {
        s.len() - 1
    } else {
        depth_index(s.drop_last(), p)
    }
}

/// Number of leading levels priced below `p`.
pub open spec fn depth_below(s: Seq<Depth>, p: int) -> nat
    decreases s.len(),
{
    if s.len() == 0 {
        0
    } else if s[0].price < p {
        1 + depth_below(s.drop_first(), p)
    } else {
        0
    }
}

/// `q` more shares at price `p`: the level grows, or a new one is inserted
/// in price order.
pub open spec fn side_add(s: Seq<Depth>, p: int, q: int) -> Seq<Depth> {
    let k = depth_index(s, p);
    if k >= 0 {
        s.update(k, Depth { price: p, size: s[k].size + q })
    } else {
        s.insert(depth_below(s, p) as int, Depth { price: p, size: q })
    }
}

/// `q` fewer shares at price `p`, keeping the level.
pub open spec fn side_reduce(s: Seq<Depth>, p: int, q: int) -> Seq<Depth> {
    let k = depth_index(s, p);
    s.update(k, Depth { price: p, size: s[k].size - q })
}

/// `q` fewer shares at price `p`; the level goes when nothing is left.
pub open spec fn side_take(s: Seq<Depth>, p: int, q: int) -> Seq<Depth> {
    let k = depth_index(s, p);
    if s[k].size == q {
        s.remove(k)
    } else {
        side_reduce(s, p, q)
    }
}

impl Model {
    /// The bid side of book `b` when `bid`, else its ask side.
    pub open spec fn side(self, b: int, bid: bool) -> Seq<Depth> {
        if bid {
            self.books[b].bids
        } else {
            self.books[b].asks
        }
    }

    /// This state with one side of book `b` replaced.
    pub open spec fn with_side(self, b: int, bid: bool, s: Seq<Depth>) -> Model {
        let bm = if bid {
            BookModel { bids: s, ..self.books[b] }
        } else {
            BookModel { asks: s, ..self.books[b] }
        };
        Model { books: self.books.update(b, bm), ..self }
    }

    /// Every side is ascending with positive sizes, on its own sign, and every
    /// resting order sits at a level of its book.
    pub open spec fn wf(self) -> bool {
        &&& self.books.len() == MAX_BOOKS
        &&& forall|b: int, bid: bool, i: int|
            0 <= b < MAX_BOOKS && 0 <= i < self.side(b, bid).len() ==> {
                &&& (#[trigger] self.side(b, bid)[i]).size > 0
                &&& (self.side(b, bid)[i].price > 0) == bid
            }
        &&& forall|b: int, bid: bool, i: int, j: int|
            0 <= b < MAX_BOOKS && 0 <= i < j < self.side(b, bid).len() ==> #[trigger] self.side(
                b,
                bid,
            )[i].price < #[trigger] self.side(b, bid)[j].price
        &&& forall|o: u32|
            #[trigger] self.orders.contains_key(o) ==> {
                let r = self.orders[o];
                &&& 0 <= r.book < MAX_BOOKS
                &&& r.qty > 0
                &&& depth_index(self.side(r.book, r.price > 0), r.price) >= 0
                &&& r.qty <= self.side(r.book, r.price > 0)[depth_index(
                    self.side(r.book, r.price > 0),
                    r.price,
                )].size
            }
    }

    /// The book a replacement of order `o` goes to.
    pub open spec fn replace_book(self, o: u32) -> int {
        if self.orders.contains_key(o) {
            self.orders[o].book
        } else {
            0
        }
    }

    /// True when a replacement of order `o` goes to the bid side.
    pub open spec fn replace_bid(self, o: u32) -> bool {
        if self.orders.contains_key(o) {
            self.orders[o].price > 0
        } else {
            true
        }
    }

    /// Rest `q` shares of order `o` in book `b` at signed price `p`.
    pub open spec fn add(self, o: u32, b: int, q: int, p: int) -> Model {
        let m = self.with_side(b, p > 0, side_add(self.side(b, p > 0), p, q));
        Model { orders: self.orders.insert(o, Resting { book: b, price: p, qty: q }), ..m }
    }

    /// Take order `o` off its level, dropping the level when it empties.
    pub open spec fn remove(self, o: u32) -> Model {
        if self.orders.contains_key(o) {
            let r = self.orders[o];
            let m = self.with_side(
                r.book,
                r.price > 0,
                side_take(self.side(r.book, r.price > 0), r.price, r.qty),
            );
            Model { orders: self.orders.remove(o), ..m }
        } else {
            self
        }
    }

    /// Cancel `q` shares of order `o`; cancelling all it has (or more) takes
    /// it off the book.
    pub open spec fn cancel(self, o: u32, q: int) -> Model {
        if self.orders.contains_key(o) {
            let r = self.orders[o];
            if q >= r.qty {
                self.remove(o)
            } else {
                let m = self.with_side(
                    r.book,
                    r.price > 0,
                    side_reduce(self.side(r.book, r.price > 0), r.price, q),
                );
                Model { orders: self.orders.insert(o, Resting { qty: r.qty - q, ..r }), ..m }
            }
        } else {
            self
        }
    }

    /// Execute `q` shares of order `o`: all it has removes it, less leaves a
    /// residue.
    pub open spec fn execute(self, o: u32, q: int) -> Model {
        if self.orders.contains_key(o) && self.orders[o].qty == q {
            self.remove(o)
        } else {
            self.cancel(o, q)
        }
    }

    /// Replace order `o` by order `n` of `q` shares at wire price `p`, on the
    /// old order's book and side (book 0, bid side when `o` is unknown).
    pub open spec fn replace(self, o: u32, n: u32, q: int, p: int) -> Model {
        self.remove(o).add(
            n,
            self.replace_book(o),
            q,
            if self.replace_bid(o) {
                p
            } else {
                -p
            },
        )
    }
}

/// The state with no order and no level in any book.
pub open spec fn empty_model() -> Model {
    Model {
        books: Seq::new(
            MAX_BOOKS as nat,
            |b: int| BookModel { bids: Seq::empty(), asks: Seq::empty() },
        ),
        orders: Map::empty(),
    }
}

impl Model {
    /// Adding `q` shares at signed price `p` in book `b` keeps the level's
    /// size within 32 bits.
    pub open spec fn has_room(self, b: int, p: int, q: int) -> bool {
        let s = self.side(b, p > 0);
        depth_index(s, p) >= 0 ==> s[depth_index(s, p)].size + q <= u32::MAX
    }
}

} // verus!
