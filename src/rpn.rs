use vstd::prelude::*;

verus! {

/// A value on the calculator stack.
#[derive(Clone, Copy, Debug, PartialEq, Eq, PartialOrd, Ord, Structural)]
pub enum Item {
    Int(i32),
    Bool(bool),
}

/// Why a calculator operation failed.
#[derive(Clone, Copy, Debug, PartialEq, Eq, Structural)]
pub enum Error {
    /// An operation needed more items than the stack held.
    Empty,
    /// The stack ended with extra items.
    Extra,
    /// An operand had the wrong type.
    Type,
    /// An operation was not recognised.
    Syntax,
    /// The user asked to quit.
    Quit,
}

/// The calculator's operations.
#[derive(Clone, Copy, Debug, PartialEq, Eq, Structural)]
pub enum Op {
    /// `+`: sum of two integers.
    Add,
    /// `=`: equality of two integers or of two booleans.
    Eq,
    /// `~`: negation of a boolean.
    Neg,
    /// `<->`: exchange the two top items.
    Swap,
    /// `#`: a random integer below the magnitude of the top integer.
    Rand,
    /// `?`: pick one of two items by a boolean beneath them.
    Cond,
    /// `quit`: stop.
    Quit,
}

/// How many items an operation pops.
pub open spec fn arity(op: Op) -> nat {
    match op {
        Op::Add | Op::Eq | Op::Swap => 2,
        Op::Neg | Op::Rand => 1,
        Op::Cond => 3,
        Op::Quit => 0,
    }
}

/// Absolute value.
pub open spec fn abs(v: int) -> int {
    if v < 0 {
        -v
    } else {
        v
    }
}

/// The integer that `#` derives from the drawn number `r` and the operand `bound`:
/// the magnitude of `r` reduced modulo the magnitude of `bound`.
pub open spec fn rand_pick(r: i32, bound: i32) -> i32 {
    (abs(r as int) % abs(bound as int)) as i32
}

/// The stack contents and the result after applying `op` to the stack `s`, where `r`
/// is the number drawn for `#`. Integer addition wraps. Items are popped one by one, so an operation that
/// finds too few items leaves the stack empty, and one whose operands have the
/// wrong types leaves it without them.
pub open spec fn eval_spec(s: Seq<Item>, op: Op, r: i32) -> (Seq<Item>, Result<(), Error>) {
    let n = s.len() as int;
    if op == Op::Quit {
        (s, Err(Error::Quit))
    } else if n < arity(op) {
        (Seq::empty(), Err(Error::Empty))
    } else {
        let x = s[n - 1];
        let rest = s.take(n - arity(op));
        match op {
            Op::Add => match (x, s[n - 2]) {
                (Item::Int(a), Item::Int(b)) => (
                    rest.push(Item::Int(vstd::wrapping::i32_specs::wrapping_add(a, b))),
                    Ok(()),
                ),
                _ => (rest, Err(Error::Type)),
            },
            Op::Eq => match (x, s[n - 2]) {
                (Item::Int(a), Item::Int(b)) => (rest.push(Item::Bool(a == b)), Ok(())),
                (Item::Bool(a), Item::Bool(b)) => (rest.push(Item::Bool(a == b)), Ok(())),
                _ => (rest, Err(Error::Type)),
            },
            Op::Neg => match x {
                Item::Bool(a) => (rest.push(Item::Bool(!a)), Ok(())),
                _ => (rest, Err(Error::Type)),
            },
            Op::Swap => (rest.push(x).push(s[n - 2]), Ok(())),
            Op::Rand => match x {
                Item::Int(a) => (rest.push(Item::Int(rand_pick(r, a))), Ok(())),
                _ => (rest, Err(Error::Type)),
            },
            _ => match s[n - 3] {
                Item::Bool(c) => (rest.push(if c {
                    s[n - 2]
                } else {
                    x
                }), Ok(())),
                _ => (rest, Err(Error::Type)),
            },
        }
    }
}

/// `#` is applied to the integer zero, whose range is empty.
pub open spec fn rand_of_zero(s: Seq<Item>, op: Op) -> bool {
    op == Op::Rand && s.len() > 0 && s.last() == Item::Int(0)
}

/// Relies on rand::random::<i32>: a number drawn from the thread-local generator.
/// Nothing is promised of its value.
#[verifier::external_body]
fn random_i32() -> i32 {
    rand::random::<i32>()
}

/// A stack of calculator items.
#[derive(Debug)]
pub struct Stack(Vec<Item>);

impl View for Stack {
    type V = Seq<Item>;

    closed spec fn view(&self) -> Seq<Item> {
        self.0@
    }
}

impl Stack {
    /// An empty stack.
    pub fn new() -> (s: Self)
        ensures
            s@ == Seq::<Item>::empty(),
    {
        Stack(Vec::new())
    }

    /// Whether the stack holds no items.
    pub fn empty(&self) -> (r: bool)
        ensures
            r == (self@.len() == 0),
    {
        self.0.len() == 0
    }

    /// Pushes an item; never fails.
    pub fn push(&mut self, item: Item) -> (r: Result<(), Error>)
        ensures
            r == Ok::<(), Error>(()),
            final(self)@ == old(self)@.push(item),
    {
        self.0.push(item);
        Ok(())
    }

    /// Pops the top item, or fails with `Empty` on an empty stack.
    pub fn pop(&mut self) -> (r: Result<Item, Error>)
        ensures
            old(self)@.len() == 0 ==> r == Err::<Item, Error>(Error::Empty) && final(self)@
                == old(self)@,
            old(self)@.len() > 0 ==> r == Ok::<Item, Error>(old(self)@.last()) && final(self)@
                == old(self)@.drop_last(),
    {
        match self.0.pop() {
            Some(v) => Ok(v),
            None => Err(Error::Empty),
        }
    }

    /// The top item, if any, without removing it.
    pub fn top(&self) -> (r: Option<Item>)
        ensures
            self@.len() == 0 ==> r is None,
            self@.len() > 0 ==> r == Some(self@.last()),
    {
        if self.0.len() == 0 {
            None
        } else {
            Some(self.0[self.0.len() - 1])
        }
    }

    /// Applies `op`, with `r` standing for the number that `#` draws.
    pub fn eval_with(&mut self, op: Op, r: i32) -> (res: Result<(), Error>)
        requires
            !rand_of_zero(old(self)@, op),
        ensures
            (final(self)@, res) == eval_spec(old(self)@, op, r),
    {
        let ghost s = self@;
        proof {
            if s.len() >= 1 {
                assert(s.drop_last() =~= s.take(s.len() - 1));
            }
            if s.len() >= 2 {
                assert(s.drop_last().drop_last() =~= s.take(s.len() - 2));
            }
            if s.len() >= 3 {
                assert(s.drop_last().drop_last().drop_last() =~= s.take(s.len() - 3));
            }
            if s.len() == 1 {
                assert(s.drop_last() =~= Seq::empty());
            }
            if s.len() == 2 {
                assert(s.drop_last().drop_last() =~= Seq::empty());
            }
        }
        match op {
            Op::Add => {
                let x = match self.pop() {
                    Ok(v) => v,
                    Err(e) => return Err(e),
                };
                let y = match self.pop() {
                    Ok(v) => v,
                    Err(e) => return Err(e),
                };
                match (x, y) {
                    (Item::Int(a), Item::Int(b)) => self.push(Item::Int(a.wrapping_add(b))),
                    _ => Err(Error::Type),
                }
            },
            Op::Eq => {
                let x = match self.pop() {
                    Ok(v) => v,
                    Err(e) => return Err(e),
                };
                let y = match self.pop() {
                    Ok(v) => v,
                    Err(e) => return Err(e),
                };
                match (x, y) {
                    (Item::Int(a), Item::Int(b)) => self.push(Item::Bool(a == b)),
                    (Item::Bool(a), Item::Bool(b)) => self.push(Item::Bool(a == b)),
                    _ => Err(Error::Type),
                }
            },
            Op::Neg => match self.pop() {
                Err(e) => Err(e),
                Ok(Item::Bool(a)) => self.push(Item::Bool(!a)),
                Ok(_) => Err(Error::Type),
            },
            Op::Swap => {
                let x = match self.pop() {
                    Ok(v) => v,
                    Err(e) => return Err(e),
                };
                let y = match self.pop() {
                    Ok(v) => v,
                    Err(e) => return Err(e),
                };
                let _ = self.push(x);
                self.push(y)
            },
            Op::Rand => match self.pop() {
                Err(e) => Err(e),
                Ok(Item::Int(a)) => {
                    let m: u64 = if r < 0 {
                        (-(r as i64)) as u64
                    } else {
                        r as u64
                    };
                    let b: u64 = if a < 0 {
                        (-(a as i64)) as u64
                    } else {
                        a as u64
                    };
                    self.push(Item::Int((m % b) as i32))
                },
                Ok(_) => Err(Error::Type),
            },
            Op::Cond => {
                let x = match self.pop() {
                    Ok(v) => v,
                    Err(e) => return Err(e),
                };
                let y = match self.pop() {
                    Ok(v) => v,
                    Err(e) => return Err(e),
                };
                let z = match self.pop() {
                    Ok(v) => v,
                    Err(e) => return Err(e),
                };
                match z {
                    Item::Bool(c) => {
                        if c {
                            self.push(y)
                        } else {
                            self.push(x)
                        }
                    },
                    _ => Err(Error::Type),
                }
            },
            Op::Quit => Err(Error::Quit),
        }
    }

    /// Applies `op`, drawing a random number for `#`: the outcome is that of
    /// `eval_with` for some drawn number.
    pub fn eval(&mut self, op: Op) -> (res: Result<(), Error>)
        requires
            !rand_of_zero(old(self)@, op),
        ensures
            exists|r: i32| (final(self)@, res) == eval_spec(old(self)@, op, r),
            op != Op::Rand ==> (final(self)@, res) == eval_spec(old(self)@, op, 0),
    {
        let r: i32 = match op {
            Op::Rand => random_i32(),
            _ => 0,
        };
        self.eval_with(op, r)
    }
}

} // verus!
