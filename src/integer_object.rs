use vstd::prelude::*;

verus! {

/// A number with a list of child numbers.
#[derive(Debug)]
pub struct IntegerObject {
    number: i32,
    children: Vec<i32>,
}

impl IntegerObject {
    pub closed spec fn number_spec(&self) -> i32 {
        self.number
    }

    pub closed spec fn children_spec(&self) -> Seq<i32> {
        self.children@
    }

    /// An object holding `number`, with `nums` as its children, in order.
    pub fn new(number: i32, nums: &[i32]) -> (r: IntegerObject)
        ensures
            r.number_spec() == number,
            r.children_spec() == nums@,
    {
        let mut children: Vec<i32> = Vec::new();
        let mut i: usize = 0;
        while i < nums.len()
            invariant
                i <= nums@.len(),
                children@ == nums@.take(i as int),
            decreases nums@.len() - i,
        {
            children.push(nums[i]);
            assert(children@ =~= nums@.take(i + 1));
            i = i + 1;
        }
        assert(nums@.take(nums@.len() as int) =~= nums@);
        IntegerObject { number, children }
    }

    /// Takes a list of numbers and keeps nothing of it: the object is shared and read only.
    pub fn add_nums(&self, nums: &[i32]) {
    }

    /// The number held.
    pub fn number(&self) -> (r: i32)
        ensures
            r == self.number_spec(),
    {
        self.number
    }

    /// A copy of the children, in order.
    pub fn children(&self) -> (r: Vec<i32>)
        ensures
            r@ == self.children_spec(),
    {
        let mut r: Vec<i32> = Vec::new();
        let mut i: usize = 0;
        while i < self.children.len()
            invariant
                i <= self.children@.len(),
                r@ == self.children@.take(i as int),
            decreases self.children@.len() - i,
        {
            r.push(self.children[i]);
            assert(r@ =~= self.children@.take(i + 1));
            i = i + 1;
        }
        assert(self.children@.take(self.children@.len() as int) =~= self.children@);
        r
    }
}

} // verus!
