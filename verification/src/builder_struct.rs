//! A command description with the setters that `#[derive(Builder)]` gives
//! it: `x` and `executable` replace a field, `arg` pushes one argument
//! (the field `args` is marked `#[builder(each = "arg")]`).
use vstd::prelude::*;

verus! {

#[derive(PartialEq, Debug)]
pub struct BuilderStruct {
    pub x: u64,
    pub args: Vec<String>,
    pub executable: String,
}

impl BuilderStruct {
    /// Replaces `x`; the other fields stay as they are.
    pub fn x(&mut self, new_val: u64) -> (ret: &mut Self)
        ensures
            ret.x == new_val,
            ret.args@ == old(self).args@,
            ret.executable@ == old(self).executable@,
            *final(self) == *final(ret),
    {
        self.x = new_val;
        self
    }

    /// Appends one argument to `args`; the other fields stay as they are.
    pub fn arg(&mut self, new_val: String) -> (ret: &mut Self)
        ensures
            ret.x == old(self).x,
            ret.args@ == old(self).args@.push(new_val),
            ret.executable@ == old(self).executable@,
            *final(self) == *final(ret),
    {
        self.args.push(new_val);
        self
    }

    /// Replaces `executable`; the other fields stay as they are.
    pub fn executable(&mut self, new_val: String) -> (ret: &mut Self)
        ensures
            ret.x == old(self).x,
            ret.args@ == old(self).args@,
            ret.executable@ == new_val@,
            *final(self) == *final(ret),
    {
        self.executable = new_val;
        self
    }
}

} // verus!
