//! The stack.
//!
//! Stacks can be used in transactions so that if an operation on a popped
//! value fails, the transaction can be abandoned and the value remains on
//! the stack. A transaction that is dropped without being committed leaves
//! the stack as it was.

use crate::float::Float;
use crate::integer::{Integer, Representation};
use crate::units::number::{Number, NumberView};
use crate::units::unit::{Unit, UnitView};
use vstd::prelude::*;

verus! {

/// Errors returned by stack operations.
#[derive(Clone, Copy, Debug, PartialEq, Eq, Structural)]
pub enum Error {
    /// Returned when there aren't enough items on the stack.
    Underflow,
    /// Returned when the items on the stack don't have the required types.
    TypeMismatch,
    /// Returned when an integer is required but a floating-point value has a
    /// fractional component.
    NotAnInteger,
    /// Returned when a dimensionless number is required but a value has units.
    NotDimensionless,
}

/// An item on the stack.
#[derive(Debug)]
pub enum Item {
    Float(Number),
    Integer(Integer),
    Unit(Unit),
}

/// What an `Item` is, mathematically.
pub enum ItemView {
    Float(NumberView),
    Integer(Integer),
    Unit(UnitView),
}

impl View for Item {
    type V = ItemView;

    open spec fn view(&self) -> ItemView {
        match *self {
            Item::Float(n) => ItemView::Float(n@),
            Item::Integer(i) => ItemView::Integer(i),
            Item::Unit(u) => ItemView::Unit(u@),
        }
    }
}

impl Item {
    /// Returns a copy of this item.
    pub fn duplicate(&self) -> (r: Item)
        ensures
            r@ == self@,
    {
        match self {
            Item::Float(n) => Item::Float(n.duplicate()),
            Item::Integer(i) => Item::Integer(*i),
            Item::Unit(u) => Item::Unit(u.duplicate()),
        }
    }
}

impl Clone for Item {
    fn clone(&self) -> (r: Item)
        ensures
            r@ == self@,
    {
        self.duplicate()
    }
}

impl ItemView {
    /// A dimensionless number.
    pub open spec fn plain(value: Float) -> ItemView {
        ItemView::Float(NumberView { value, unit: None })
    }

    /// The item as it comes to lie on a stack: a unit without bases is a pure
    /// factor and lies there as the dimensionless number that it stands for.
    pub open spec fn settled(self) -> ItemView {
        match self {
            ItemView::Unit(u) => if u.is_scalar() {
                ItemView::plain(u.constant)
            } else {
                self
            },
            _ => self,
        }
    }

    /// Whether the item is a number or an integer.
    pub open spec fn is_numeric(self) -> bool {
        self is Float || self is Integer
    }

    /// The item as a number with an optional unit: an integer is the nearest
    /// dimensionless number.
    pub open spec fn as_number(self) -> NumberView {
        match self {
            ItemView::Float(n) => n,
            ItemView::Integer(i) => NumberView { value: Float::of_int(i.value as int), unit: None },
            ItemView::Unit(_) => NumberView { value: Float { bits: 0 }, unit: None },
        }
    }

    /// The item as an integer: a whole dimensionless number is the decimal
    /// integer nearest to it.
    pub open spec fn as_integer(self) -> Result<Integer, Error> {
        match self {
            ItemView::Float(n) => whole_number(n),
            ItemView::Integer(i) => Ok(i),
            ItemView::Unit(_) => Err(Error::TypeMismatch),
        }
    }
}

/// The decimal integer that a number stands for: the number is whole and has
/// no unit.
pub open spec fn whole_number(n: NumberView) -> Result<Integer, Error> {
    if !n.value.is_whole() {
        Err(Error::NotAnInteger)
    } else if n.unit is Some {
        Err(Error::NotDimensionless)
    } else {
        Ok(Integer { value: n.value.as_i64(), repr: Representation::Decimal })
    }
}

/// The views of items.
pub open spec fn views(items: Seq<Item>) -> Seq<ItemView> {
    items.map_values(|i: Item| i@)
}

/// A LIFO collection of typed objects.
pub struct Stack(Vec<Item>);

impl View for Stack {
    type V = Seq<ItemView>;

    closed spec fn view(&self) -> Seq<ItemView> {
        views(self.0@)
    }
}

impl Stack {
    /// Creates an empty stack.
    pub fn new() -> (r: Stack)
        ensures
            r@ == Seq::<ItemView>::empty(),
    {
        let r = Stack(Vec::new());
        assert(r@ =~= Seq::<ItemView>::empty());
        r
    }

    /// Returns the number of items on the stack.
    pub fn height(&self) -> (r: usize)
        ensures
            r == self@.len(),
    {
        self.0.len()
    }

    /// Returns true if the stack is empty.
    pub fn is_empty(&self) -> (r: bool)
        ensures
            r == (self@.len() == 0),
    {
        self.0.len() == 0
    }

    /// Removes all items from the stack.
    pub fn clear(&mut self)
        ensures
            final(self)@ == Seq::<ItemView>::empty(),
    {
        self.0.clear();
        assert(self@ =~= Seq::<ItemView>::empty());
    }

    /// Pops an item off of the stack and returns it.
    ///
    /// # Errors
    ///
    /// Returns an error if the stack is empty.
    pub fn pop(&mut self) -> (r: Result<Item, Error>)
        ensures
            match r {
                Ok(item) => old(self)@.len() > 0 && item@ == old(self)@.last() && final(self)@
                    == old(self)@.drop_last(),
                Err(e) => e == Error::Underflow && old(self)@.len() == 0 && *final(self) == *old(self),
            },
    {
        if self.0.len() == 0 {
            return Err(Error::Underflow);
        }
        match self.0.pop() {
            Some(item) => {
                assert(self@ =~= old(self)@.drop_last());
                Ok(item)
            },
            None => Err(Error::Underflow),
        }
    }

    /// Returns a copy of the item at the given height above the bottom.
    pub fn get(&self, ix: usize) -> (r: Option<Item>)
        ensures
            match r {
                Some(item) => ix < self@.len() && item@ == self@[ix as int],
                None => ix >= self@.len(),
            },
    {
        if ix < self.0.len() {
            Some(self.0[ix].duplicate())
        } else {
            None
        }
    }

    /// Pushes a floating-point number with optional units onto the stack.
    pub fn pushf(&mut self, x: Number)
        ensures
            final(self)@ == old(self)@.push(ItemView::Float(x@)),
    {
        self.0.push(Item::Float(x));
        assert(self@ =~= old(self)@.push(ItemView::Float(x@)));
    }

    /// Pushes a unit onto the stack. A unit without bases is pushed as the
    /// dimensionless number that it stands for.
    pub fn pushu(&mut self, u: Unit)
        ensures
            final(self)@ == old(self)@.push(ItemView::Unit(u@).settled()),
    {
        if u.is_scalar() {
            self.pushx(u.constant());
        } else {
            self.0.push(Item::Unit(u));
            assert(self@ =~= old(self)@.push(ItemView::Unit(u@)));
        }
    }

    /// Pushes a dimensionless floating-point number onto the stack.
    pub fn pushx(&mut self, x: Float)
        ensures
            final(self)@ == old(self)@.push(ItemView::plain(x)),
    {
        self.pushf(Number::new(x));
    }

    /// Pushes an integer onto the stack.
    pub fn pushi(&mut self, x: Integer)
        ensures
            final(self)@ == old(self)@.push(ItemView::Integer(x)),
    {
        self.0.push(Item::Integer(x));
        assert(self@ =~= old(self)@.push(ItemView::Integer(x)));
    }

    /// Pops a floating-point number off the stack.
    pub fn popf(&mut self) -> (r: Result<Number, Error>)
        ensures
            match r {
                Ok(n) => old(self)@.len() > 0 && old(self)@.last() == ItemView::Float(n@),
                Err(e) => e == (if old(self)@.len() == 0 {
                    Error::Underflow
                } else {
                    Error::TypeMismatch
                }) && (old(self)@.len() == 0 || !(old(self)@.last() is Float)),
            },
            old(self)@.len() > 0 ==> final(self)@ == old(self)@.drop_last(),
            old(self)@.len() == 0 ==> *final(self) == *old(self),
    {
        match self.pop() {
            Ok(Item::Float(n)) => Ok(n),
            Ok(_) => Err(Error::TypeMismatch),
            Err(e) => Err(e),
        }
    }

    /// Starts a transaction.
    pub fn begin(&mut self) -> (tx: Transaction<'_>)
        ensures
            tx.wf(),
            *tx.stack == *old(self),
            tx.items() == old(self)@,
            tx.pushed@.len() == 0,
            *final(self) == *final(tx.stack),
    {
        let stack_remaining = self.0.len();
        let tx = Transaction { stack: self, stack_remaining, pushed: Vec::new() };
        assert(tx.items() =~= old(self)@);
        tx
    }
}

impl Default for Stack {
    /// The default value for a `Stack` is an empty stack.
    fn default() -> (r: Stack)
        ensures
            r@ == Seq::<ItemView>::empty(),
    {
        Stack::new()
    }
}

/// Interface to a stack transaction.
pub struct Transaction<'a> {
    /// The stack that the transaction works on. It stays as it is until the
    /// transaction is committed.
    pub stack: &'a mut Stack,
    /// How many items of the stack, from the bottom, are still in place.
    pub stack_remaining: usize,
    /// The items pushed during the transaction that are still in place.
    pub pushed: Vec<Item>,
}

impl<'a> Transaction<'a> {
    /// Whether the transaction fits its stack.
    pub open spec fn wf(&self) -> bool {
        self.stack_remaining <= self.stack@.len()
    }

    /// The items that the transaction shows: those of the stack that are
    /// still in place, then those pushed since.
    pub open spec fn items(&self) -> Seq<ItemView> {
        self.stack@.take(self.stack_remaining as int) + views(self.pushed@)
    }

    /// Returns the number of items on the stack.
    pub fn height(&self) -> (r: usize)
        requires
            self.wf(),
            self.items().len() <= usize::MAX,
        ensures
            r == self.items().len(),
    {
        self.stack_remaining + self.pushed.len()
    }

    /// Returns true if the stack has no items on it.
    pub fn is_empty(&self) -> (r: bool)
        requires
            self.wf(),
        ensures
            r == (self.items().len() == 0),
    {
        self.stack_remaining == 0 && self.pushed.len() == 0
    }

    /// Tells whether the transaction shows fewer than `n` items.
    fn shorter_than(&self, n: usize) -> (r: bool)
        requires
            self.wf(),
        ensures
            r == (self.items().len() < n),
    {
        self.stack_remaining < n && self.pushed.len() < n - self.stack_remaining
    }

    /// Takes the topmost item, which there is.
    fn take(&mut self) -> (item: Item)
        requires
            old(self).wf(),
            old(self).items().len() > 0,
        ensures
            final(self).wf(),
            item@ == old(self).items().last(),
            final(self).items() == old(self).items().drop_last(),
            *final(self).stack == *old(self).stack,
            *final(final(self).stack) == *final(old(self).stack),
            final(self).pushed@.len() <= old(self).pushed@.len(),
            final(self).stack_remaining <= old(self).stack_remaining,
    {
        match self.pushed.pop() {
            Some(item) => {
                assert(self.items() =~= old(self).items().drop_last());
                item
            },
            None => {
                self.stack_remaining = self.stack_remaining - 1;
                let item = self.stack.0[self.stack_remaining].duplicate();
                assert(self.items() =~= old(self).items().drop_last());
                item
            },
        }
    }

    /// Pops an item off the stack.
    ///
    /// # Errors
    ///
    /// Returns an error if the stack is empty.
    pub fn pop(&mut self) -> (r: Result<Item, Error>)
        requires
            old(self).wf(),
        ensures
            final(self).wf(),
            *final(self).stack == *old(self).stack,
            *final(final(self).stack) == *final(old(self).stack),
            final(self).pushed@.len() <= old(self).pushed@.len(),
            final(self).stack_remaining <= old(self).stack_remaining,
            match r {
                Ok(item) => old(self).items().len() > 0 && item@ == old(self).items().last()
                    && final(self).items() == old(self).items().drop_last(),
                Err(e) => e == Error::Underflow && old(self).items().len() == 0 && final(self).items() == old(self).items(),
            },
    {
        if self.is_empty() {
            Err(Error::Underflow)
        } else {
            Ok(self.take())
        }
    }

    /// Pops two items off the stack and returns them, the lower one first.
    ///
    /// # Errors
    ///
    /// Returns an error if there are fewer than two items on the stack.
    pub fn pop2(&mut self) -> (r: Result<(Item, Item), Error>)
        requires
            old(self).wf(),
        ensures
            final(self).wf(),
            *final(self).stack == *old(self).stack,
            *final(final(self).stack) == *final(old(self).stack),
            match r {
                Ok(pair) => {
                    let n = old(self).items().len();
                    &&& n >= 2
                    &&& pair.0@ == old(self).items()[n - 2]
                    &&& pair.1@ == old(self).items()[n - 1]
                    &&& final(self).items() == old(self).items().take(n - 2)
                },
                Err(e) => e == Error::Underflow && old(self).items().len() < 2 && final(self).items() == old(self).items(),
            },
    {
        if self.shorter_than(2) {
            return Err(Error::Underflow);
        }
        let b = self.take();
        let a = self.take();
        assert(self.items() =~= old(self).items().take(old(self).items().len() - 2));
        Ok((a, b))
    }

    /// Removes everything from the stack except the topmost `n` items.
    ///
    /// # Errors
    ///
    /// Returns an error if there are fewer than `n` items on the stack.
    pub fn keep(&mut self, n: usize) -> (r: Result<(), Error>)
        requires
            old(self).wf(),
        ensures
            final(self).wf(),
            *final(self).stack == *old(self).stack,
            *final(final(self).stack) == *final(old(self).stack),
            match r {
                Ok(_) => n <= old(self).items().len() && final(self).items() == old(self).items().skip(old(self).items().len() - n),
                Err(e) => e == Error::Underflow && old(self).items().len() < n && final(self).items() == old(self).items(),
            },
    {
        if self.shorter_than(n) {
            return Err(Error::Underflow);
        }
        let mut kept: Vec<Item> = Vec::new();
        if n > self.pushed.len() {
            let ix0: usize = self.stack_remaining - (n - self.pushed.len());
            let mut ix: usize = ix0;
            while ix < self.stack_remaining
                invariant
                    ix0 <= ix <= self.stack_remaining <= self.stack@.len(),
                    views(kept@) == self.stack@.subrange(ix0 as int, ix as int),
                decreases self.stack_remaining - ix,
            {
                let ghost before = kept@;
                let item = self.stack.0[ix].duplicate();
                kept.push(item);
                assert(views(kept@) =~= views(before).push(item@));
                assert(self.stack@[ix as int] == item@);
                assert(views(kept@) =~= self.stack@.subrange(ix0 as int, ix + 1));
                ix = ix + 1;
            }
            let ghost from_stack = kept@;
            kept.append(&mut self.pushed);
            self.pushed = kept;
            self.stack_remaining = 0;
            assert(views(self.pushed@) =~= views(from_stack) + views(old(self).pushed@));
            assert(self.stack@.take(0) =~= Seq::<ItemView>::empty());
            assert(self.items() =~= old(self).items().skip(old(self).items().len() - n));
        } else {
            let extra: usize = self.pushed.len() - n;
            let mut ix: usize = extra;
            while ix < self.pushed.len()
                invariant
                    extra <= ix <= self.pushed.len(),
                    views(kept@) == views(self.pushed@).subrange(extra as int, ix as int),
                decreases self.pushed.len() - ix,
            {
                let ghost before = kept@;
                let item = self.pushed[ix].duplicate();
                kept.push(item);
                assert(views(kept@) =~= views(before).push(item@));
                assert(views(self.pushed@)[ix as int] == item@);
                assert(views(kept@) =~= views(self.pushed@).subrange(extra as int, ix + 1));
                ix = ix + 1;
            }
            self.pushed = kept;
            self.stack_remaining = 0;
            assert(self.items() =~= old(self).items().skip(old(self).items().len() - n));
        }
        Ok(())
    }

    /// Pushes an item onto the stack. A unit without bases is pushed as the
    /// dimensionless number that it stands for.
    pub fn push(&mut self, item: Item)
        requires
            old(self).wf(),
        ensures
            final(self).wf(),
            *final(self).stack == *old(self).stack,
            *final(final(self).stack) == *final(old(self).stack),
            final(self).items() == old(self).items().push(item@.settled()),
    {
        let item = match item {
            Item::Unit(u) => if u.is_scalar() {
                Item::Float(Number::new(u.constant()))
            } else {
                Item::Unit(u)
            },
            other => other,
        };
        self.pushed.push(item);
        assert(self.items() =~= old(self).items().push(item@));
    }

    /// Pushes a floating-point number with optional units onto the stack.
    pub fn pushf(&mut self, x: Number)
        requires
            old(self).wf(),
        ensures
            final(self).wf(),
            *final(self).stack == *old(self).stack,
            *final(final(self).stack) == *final(old(self).stack),
            final(self).items() == old(self).items().push(ItemView::Float(x@)),
    {
        self.push(Item::Float(x));
    }

    /// Pushes a unit onto the stack.
    pub fn pushu(&mut self, u: Unit)
        requires
            old(self).wf(),
        ensures
            final(self).wf(),
            *final(self).stack == *old(self).stack,
            *final(final(self).stack) == *final(old(self).stack),
            final(self).items() == old(self).items().push(ItemView::Unit(u@).settled()),
    {
        self.push(Item::Unit(u));
    }

    /// Pushes a dimensionless floating-point number onto the stack.
    pub fn pushx(&mut self, x: Float)
        requires
            old(self).wf(),
        ensures
            final(self).wf(),
            *final(self).stack == *old(self).stack,
            *final(final(self).stack) == *final(old(self).stack),
            final(self).items() == old(self).items().push(ItemView::plain(x)),
    {
        self.pushf(Number::new(x));
    }

    /// Pushes an integer onto the stack.
    pub fn pushi(&mut self, x: Integer)
        requires
            old(self).wf(),
        ensures
            final(self).wf(),
            *final(self).stack == *old(self).stack,
            *final(final(self).stack) == *final(old(self).stack),
            final(self).items() == old(self).items().push(ItemView::Integer(x)),
    {
        self.push(Item::Integer(x));
    }

    /// Commits all pops and pushes performed during this transaction to the
    /// stack and ends the transaction.
    pub fn commit(&mut self)
        requires
            old(self).wf(),
        ensures
            final(self).wf(),
            final(self).stack@ == old(self).items(),
            final(self).items() == old(self).items(),
            *final(final(self).stack) == *final(old(self).stack),
    {
        self.stack.0.truncate(self.stack_remaining);
        self.stack.0.append(&mut self.pushed);
        self.stack_remaining = self.stack.0.len();
        assert(self.stack@ =~= old(self).items());
        assert(self.items() =~= old(self).items());
    }

    /// Pops a numeric item off the stack. When successful, the result will
    /// always be a `Number`, even if the popped item was an integer.
    pub fn pop_as_f(&mut self) -> (r: Result<Number, Error>)
        requires
            old(self).wf(),
        ensures
            final(self).wf(),
            *final(self).stack == *old(self).stack,
            *final(final(self).stack) == *final(old(self).stack),
            old(self).items().len() > 0 ==> final(self).items() == old(self).items().drop_last(),
            match r {
                Ok(n) => old(self).items().len() > 0 && old(self).items().last().is_numeric()
                    && n@ == old(self).items().last().as_number(),
                Err(e) => e == (if old(self).items().len() == 0 {
                    Error::Underflow
                } else {
                    Error::TypeMismatch
                }) && (old(self).items().len() == 0 || !old(self).items().last().is_numeric()),
            },
    {
        match self.pop() {
            Ok(Item::Float(x)) => Ok(x),
            Ok(Item::Integer(x)) => Ok(Number::new(Float::from_i64(x.value))),
            Ok(Item::Unit(_)) => Err(Error::TypeMismatch),
            Err(e) => Err(e),
        }
    }

    /// Pops two numeric items off the stack. When successful, the results will
    /// always be `Number`s, even if any of the popped items was an integer.
    pub fn pop_as_ff(&mut self) -> (r: Result<(Number, Number), Error>)
        requires
            old(self).wf(),
        ensures
            final(self).wf(),
            *final(self).stack == *old(self).stack,
            *final(final(self).stack) == *final(old(self).stack),
            old(self).items().len() >= 2 ==> final(self).items() == old(self).items().take(
                old(self).items().len() - 2,
            ),
            match r {
                Ok(pair) => {
                    let n = old(self).items().len();
                    &&& n >= 2
                    &&& old(self).items()[n - 2].is_numeric()
                    &&& old(self).items()[n - 1].is_numeric()
                    &&& pair.0@ == old(self).items()[n - 2].as_number()
                    &&& pair.1@ == old(self).items()[n - 1].as_number()
                },
                Err(e) => {
                    let n = old(self).items().len();
                    if n < 2 {
                        e == Error::Underflow
                    } else {
                        e == Error::TypeMismatch && !(old(self).items()[n - 2].is_numeric() && old(self).items()[n - 1].is_numeric())
                    }
                },
            },
    {
        match self.pop2() {
            Ok((a, b)) => {
                let x = match a {
                    Item::Float(x) => x,
                    Item::Integer(x) => Number::new(Float::from_i64(x.value)),
                    Item::Unit(_) => {
                        return Err(Error::TypeMismatch);
                    },
                };
                let y = match b {
                    Item::Float(y) => y,
                    Item::Integer(y) => Number::new(Float::from_i64(y.value)),
                    Item::Unit(_) => {
                        return Err(Error::TypeMismatch);
                    },
                };
                Ok((x, y))
            },
            Err(e) => Err(e),
        }
    }

    /// Pops a numeric item and a unit off the stack. When successful, the
    /// numeric item will always be a `Number`, even if the popped item was an
    /// integer.
    pub fn pop_as_fu(&mut self) -> (r: Result<(Number, Unit), Error>)
        requires
            old(self).wf(),
        ensures
            final(self).wf(),
            *final(self).stack == *old(self).stack,
            *final(final(self).stack) == *final(old(self).stack),
            old(self).items().len() >= 2 ==> final(self).items() == old(self).items().take(
                old(self).items().len() - 2,
            ),
            match r {
                Ok(pair) => {
                    let n = old(self).items().len();
                    &&& n >= 2
                    &&& old(self).items()[n - 2].is_numeric()
                    &&& pair.0@ == old(self).items()[n - 2].as_number()
                    &&& old(self).items()[n - 1] == ItemView::Unit(pair.1@)
                },
                Err(e) => {
                    let n = old(self).items().len();
                    if n < 2 {
                        e == Error::Underflow
                    } else {
                        e == Error::TypeMismatch && !(old(self).items()[n - 2].is_numeric() && old(self).items()[n - 1] is Unit)
                    }
                },
            },
    {
        match self.pop2() {
            Ok((a, b)) => {
                let u = match b {
                    Item::Unit(u) => u,
                    _ => {
                        return Err(Error::TypeMismatch);
                    },
                };
                let x = match a {
                    Item::Float(x) => x,
                    Item::Integer(x) => Number::new(Float::from_i64(x.value)),
                    Item::Unit(_) => {
                        return Err(Error::TypeMismatch);
                    },
                };
                Ok((x, u))
            },
            Err(e) => Err(e),
        }
    }

    /// Pops a numeric item off the stack. Floating-point numbers must not have
    /// a fractional component. When successful, the result will always be an
    /// `Integer`.
    pub fn pop_as_i(&mut self) -> (r: Result<Integer, Error>)
        requires
            old(self).wf(),
        ensures
            final(self).wf(),
            *final(self).stack == *old(self).stack,
            *final(final(self).stack) == *final(old(self).stack),
            final(self).pushed@.len() <= old(self).pushed@.len(),
            final(self).stack_remaining <= old(self).stack_remaining,
            old(self).items().len() > 0 ==> final(self).items() == old(self).items().drop_last(),
            r == (if old(self).items().len() == 0 {
                Err::<Integer, Error>(Error::Underflow)
            } else {
                old(self).items().last().as_integer()
            }),
    {
        match self.pop() {
            Ok(Item::Float(x)) => float_as_int(&x),
            Ok(Item::Integer(x)) => Ok(x),
            Ok(Item::Unit(_)) => Err(Error::TypeMismatch),
            Err(e) => Err(e),
        }
    }

    /// Pops two numeric items off the stack. Floating-point numbers must not
    /// have fractional components. When successful, the result will always be
    /// two `Integer`s.
    pub fn pop_as_ii(&mut self) -> (r: Result<(Integer, Integer), Error>)
        requires
            old(self).wf(),
        ensures
            final(self).wf(),
            *final(self).stack == *old(self).stack,
            *final(final(self).stack) == *final(old(self).stack),
            old(self).items().len() >= 2 ==> final(self).items() == old(self).items().take(
                old(self).items().len() - 2,
            ),
            r == (if old(self).items().len() < 2 {
                Err::<(Integer, Integer), Error>(Error::Underflow)
            } else {
                integers(
                    old(self).items()[old(self).items().len() - 2],
                    old(self).items()[old(self).items().len() - 1],
                )
            }),
    {
        match self.pop2() {
            Ok((Item::Unit(_), _)) => Err(Error::TypeMismatch),
            Ok((_, Item::Unit(_))) => Err(Error::TypeMismatch),
            Ok((Item::Float(a), Item::Float(b))) => zip(float_as_int(&a), float_as_int(&b)),
            Ok((Item::Float(a), Item::Integer(b))) => zip(float_as_int(&a), Ok(b)),
            Ok((Item::Integer(a), Item::Float(b))) => zip(Ok(a), float_as_int(&b)),
            Ok((Item::Integer(a), Item::Integer(b))) => Ok((a, b)),
            Err(e) => Err(e),
        }
    }

    /// Pops a numeric item off the stack and returns it without casting.
    pub fn popn(&mut self) -> (r: Result<Item, Error>)
        requires
            old(self).wf(),
        ensures
            final(self).wf(),
            *final(self).stack == *old(self).stack,
            *final(final(self).stack) == *final(old(self).stack),
            old(self).items().len() > 0 ==> final(self).items() == old(self).items().drop_last(),
            match r {
                Ok(item) => old(self).items().len() > 0 && item@ == old(self).items().last()
                    && item@.is_numeric(),
                Err(e) => e == (if old(self).items().len() == 0 {
                    Error::Underflow
                } else {
                    Error::TypeMismatch
                }) && (old(self).items().len() == 0 || !old(self).items().last().is_numeric()),
            },
    {
        match self.pop() {
            Ok(Item::Unit(_)) => Err(Error::TypeMismatch),
            Ok(item) => Ok(item),
            Err(e) => Err(e),
        }
    }

    /// Pops two numeric items off the stack and returns them without casting.
    pub fn popnn(&mut self) -> (r: Result<(Item, Item), Error>)
        requires
            old(self).wf(),
        ensures
            final(self).wf(),
            *final(self).stack == *old(self).stack,
            *final(final(self).stack) == *final(old(self).stack),
            old(self).items().len() >= 2 ==> final(self).items() == old(self).items().take(
                old(self).items().len() - 2,
            ),
            match r {
                Ok(pair) => {
                    let n = old(self).items().len();
                    &&& n >= 2
                    &&& pair.0@ == old(self).items()[n - 2]
                    &&& pair.1@ == old(self).items()[n - 1]
                    &&& pair.0@.is_numeric()
                    &&& pair.1@.is_numeric()
                },
                Err(e) => {
                    let n = old(self).items().len();
                    if n < 2 {
                        e == Error::Underflow
                    } else {
                        e == Error::TypeMismatch && !(old(self).items()[n - 2].is_numeric() && old(self).items()[n - 1].is_numeric())
                    }
                },
            },
    {
        match self.pop2() {
            Ok((Item::Unit(_), _)) => Err(Error::TypeMismatch),
            Ok((_, Item::Unit(_))) => Err(Error::TypeMismatch),
            Ok(pair) => Ok(pair),
            Err(e) => Err(e),
        }
    }

    /// Pops a floating-point number off the stack.
    pub fn popf(&mut self) -> (r: Result<Number, Error>)
        requires
            old(self).wf(),
        ensures
            final(self).wf(),
            *final(self).stack == *old(self).stack,
            *final(final(self).stack) == *final(old(self).stack),
            old(self).items().len() > 0 ==> final(self).items() == old(self).items().drop_last(),
            match r {
                Ok(n) => old(self).items().len() > 0 && old(self).items().last() == ItemView::Float(
                    n@,
                ),
                Err(e) => e == (if old(self).items().len() == 0 {
                    Error::Underflow
                } else {
                    Error::TypeMismatch
                }) && (old(self).items().len() == 0 || !(old(self).items().last() is Float)),
            },
    {
        match self.pop() {
            Ok(Item::Float(n)) => Ok(n),
            Ok(_) => Err(Error::TypeMismatch),
            Err(e) => Err(e),
        }
    }
}

/// The two integers that two items stand for, or the first reason why one of
/// them stands for none.
pub open spec fn integers(a: ItemView, b: ItemView) -> Result<(Integer, Integer), Error> {
    if a is Unit || b is Unit {
        Err(Error::TypeMismatch)
    } else {
        match (a.as_integer(), b.as_integer()) {
            (Ok(x), Ok(y)) => Ok((x, y)),
            (Err(e), _) => Err(e),
            (_, Err(e)) => Err(e),
        }
    }
}

/// Casts a number to an integer. The number must be whole and dimensionless.
pub fn float_as_int(x: &Number) -> (r: Result<Integer, Error>)
    ensures
        r == whole_number(x@),
{
    if !x.value.whole() {
        Err(Error::NotAnInteger)
    } else if !x.is_dimensionless() {
        Err(Error::NotDimensionless)
    } else {
        Ok(Integer::dec(x.value.to_i64()))
    }
}

/// Pairs two results: both values, or the first of the errors.
pub fn zip<T, U>(a: Result<T, Error>, b: Result<U, Error>) -> (r: Result<(T, U), Error>)
    ensures
        r == (match (a, b) {
            (Ok(x), Ok(y)) => Ok::<(T, U), Error>((x, y)),
            (Err(e), _) => Err::<(T, U), Error>(e),
            (_, Err(e)) => Err::<(T, U), Error>(e),
        }),
{
    match (a, b) {
        (Ok(a), Ok(b)) => Ok((a, b)),
        (Err(a), _) => Err(a),
        (_, Err(b)) => Err(b),
    }
}

/// Iterator over a stack's items, starting with the item on the bottom and
/// working upward.
pub struct Iter<'a> {
    items: &'a Vec<Item>,
    ix: usize,
}

impl<'a> Iter<'a> {
    /// The items that are still to come.
    pub closed spec fn remaining(&self) -> Seq<ItemView> {
        if self.ix <= self.items@.len() {
            views(self.items@).skip(self.ix as int)
        } else {
            Seq::empty()
        }
    }

    /// Returns the next item, if there is one.
    pub fn next(&mut self) -> (r: Option<&'a Item>)
        ensures
            match r {
                Some(item) => old(self).remaining().len() > 0 && item@ == old(self).remaining()[0]
                    && final(self).remaining() == old(self).remaining().drop_first(),
                None => old(self).remaining().len() == 0 && final(self).remaining() == old(self).remaining(),
            },
    {
        if self.ix < self.items.len() {
            let item = &self.items[self.ix];
            self.ix = self.ix + 1;
            assert(self.remaining() =~= old(self).remaining().drop_first());
            Some(item)
        } else {
            None
        }
    }
}

impl Stack {
    /// Returns an iterator over the stack's items, starting with the item on
    /// the bottom and working upward.
    pub fn iter(&self) -> (r: Iter<'_>)
        ensures
            r.remaining() == self@,
    {
        let r = Iter { items: &self.0, ix: 0 };
        assert(r.remaining() =~= self@);
        r
    }
}

} // verus!
