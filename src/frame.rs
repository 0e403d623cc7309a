use vstd::prelude::*;
use crate::types::{Type, str_is};

verus! {

/// A variable's slot in the stack frame.
#[derive(Debug, PartialEq, Eq, Copy, Clone, Structural)]
pub struct LocalVar {
    /// Offset from the frame base; negative, since the frame grows downward.
    pub offset: i32,
    /// Size in bytes.
    pub size: i32,
}

/// Storage size in bytes of a value of each type.
pub open spec fn type_size(t: Type) -> i32 {
    match t {
        Type::Integer => 4,
        Type::String => 8,
        Type::Bool => 1,
        Type::Char => 1,
    }
}

impl Type {
    pub fn to_size_asm(&self) -> (r: i32)
        ensures
            r == type_size(*self),
    {
        match self {
            Type::Integer => 4,
            Type::String => 8,
            Type::Bool => 1,
            Type::Char => 1,
        }
    }
}

/// The latest slot given to `name` among `entries`.
pub open spec fn slot_of(entries: Seq<(String, LocalVar)>, name: Seq<char>) -> Option<LocalVar>
    decreases entries.len(),
{
    if entries.len() == 0 {
        None
    } else if entries.last().0@ == name {
        Some(entries.last().1)
    } else {
        slot_of(entries.drop_last(), name)
    }
}

/// The frame of the one executing scope: slots are handed out one after another, each
/// below the previous one, and never reused.
pub struct FunctionContext {
    locals: Vec<(String, LocalVar)>,
    current_stack_size: i32,
}

impl FunctionContext {
    /// The slot of each named local.
    pub closed spec fn slots(&self) -> Map<Seq<char>, LocalVar> {
        Map::new(
            |k: Seq<char>| slot_of(self.locals@, k).is_some(),
            |k: Seq<char>| slot_of(self.locals@, k).unwrap(),
        )
    }

    /// Bytes taken by all slots so far.
    pub closed spec fn stack_size(&self) -> i32 {
        self.current_stack_size
    }

    pub fn new() -> (r: FunctionContext)
        ensures
            r.slots() == Map::<Seq<char>, LocalVar>::empty(),
            r.stack_size() == 0,
    {
        let r = FunctionContext { locals: Vec::new(), current_stack_size: 0 };
        assert(r.slots() =~= Map::<Seq<char>, LocalVar>::empty());
        r
    }

    pub fn current_stack_size(&self) -> (r: i32)
        ensures
            r == self.stack_size(),
    {
        self.current_stack_size
    }

    /// Gives `name` a fresh slot of `size` bytes just below those handed out so far.
    pub fn add_local(&mut self, name: String, size: i32)
        requires
            0 <= size,
            0 <= old(self).stack_size(),
            old(self).stack_size() + size <= i32::MAX,
        ensures
            final(self).stack_size() == old(self).stack_size() + size,
            final(self).slots() == old(self).slots().insert(
                name@,
                LocalVar { offset: (-final(self).stack_size()) as i32, size },
            ),
    {
        self.current_stack_size = self.current_stack_size + size;
        let offset = -self.current_stack_size;
        let ghost before = self.locals@;
        self.locals.push((name, LocalVar { offset, size }));
        assert(self.locals@.drop_last() =~= before);
        assert(self.slots() =~= old(self).slots().insert(name@, LocalVar { offset, size }));
    }

    pub fn get_local(&self, name: &str) -> (r: Option<&LocalVar>)
        ensures
            r is Some <==> self.slots().contains_key(name@),
            r matches Some(v) ==> *v == self.slots()[name@],
    {
        let mut i = self.locals.len();
        assert(self.locals@.take(i as int) =~= self.locals@);
        while i > 0
            invariant
                i <= self.locals@.len(),
                slot_of(self.locals@, name@) == slot_of(self.locals@.take(i as int), name@),
            decreases i,
        {
            assert(self.locals@.take(i as int).drop_last() =~= self.locals@.take(i - 1));
            if str_is(self.locals[i - 1].0.as_str(), name) {
                return Some(&self.locals[i - 1].1);
            }
            i = i - 1;
        }
        None
    }
}

} // verus!
