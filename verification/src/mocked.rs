//! Records of calls made on test doubles, and what they were called with.
use std::collections::VecDeque;
use vstd::prelude::*;

verus! {

/// An argument of a recorded call: its name, its type's name and its value
/// as rendered for debugging.
#[derive(Debug)]
pub struct ArgumentInfo {
    pub name: String,
    pub argument_type: String,
    pub argument_value: String,
}

impl ArgumentInfo {
    /// The argument with this name, type name and rendered value.
    pub fn new(name: &str, argument_type: String, argument_value: String) -> (a: Self)
        ensures
            a.name@ == name@,
            a.argument_type == argument_type,
            a.argument_value == argument_value,
    {
        ArgumentInfo { name: String::from_str(name), argument_type, argument_value }
    }

    /// The argument as `name: type = value`.
    pub fn text(&self) -> (res: String)
        ensures
            res@ == self.name@ + ": "@ + self.argument_type@ + " = "@ + self.argument_value@,
    {
        let mut res = String::from_str(self.name.as_str());
        res.append(": ");
        res.append(self.argument_type.as_str());
        res.append(" = ");
        res.append(self.argument_value.as_str());
        res
    }
}

/// A recorded call: the method's name and its arguments.
#[derive(Debug)]
pub struct CallInfo {
    pub method_name: String,
    pub arguments: Vec<ArgumentInfo>,
}

/// Some argument has the given name and rendered value.
pub open spec fn has_argument(arguments: Seq<ArgumentInfo>, name: Seq<char>, value: Seq<char>) -> bool {
    exists|i: int| 0 <= i < arguments.len() && (#[trigger] arguments[i]).name@ == name && arguments[i].argument_value@ == value
}

impl CallInfo {
    /// The call of this method with these arguments.
    pub fn new(name: &str, arguments: Vec<ArgumentInfo>) -> (c: Self)
        ensures
            c.method_name@ == name@,
            c.arguments@ == arguments@,
    {
        CallInfo { method_name: String::from_str(name), arguments }
    }

    /// Whether some argument has the name `arg.0` and the rendered value
    /// `arg.1`.
    pub fn called_with(&self, arg: (&str, &str)) -> (res: bool)
        ensures
            res == has_argument(self.arguments@, arg.0@, arg.1@),
    {
        let name = String::from_str(arg.0);
        let value = String::from_str(arg.1);
        let mut i: usize = 0;
        while i < self.arguments.len()
            invariant
                i <= self.arguments.len(),
                name@ == arg.0@,
                value@ == arg.1@,
                forall|j: int| 0 <= j < i ==> !((#[trigger] self.arguments@[j]).name@ == arg.0@
                    && self.arguments@[j].argument_value@ == arg.1@),
            decreases self.arguments.len() - i,
        {
            if self.arguments[i].name == name && self.arguments[i].argument_value == value {
                return true;
            }
            i = i + 1;
        }
        false
    }
}

/// An in-memory stream for tests: reads give back the bytes it was made
/// with, in order, and writes are kept.
#[derive(Debug)]
pub struct MockStream {
    stream_contents: VecDeque<u8>,
    writes: Vec<u8>,
}

impl MockStream {
    /// The bytes still to be read.
    pub closed spec fn contents(&self) -> Seq<u8> {
        self.stream_contents@
    }

    /// The bytes written so far.
    pub closed spec fn written(&self) -> Seq<u8> {
        self.writes@
    }

    /// A stream that will read `buf` and has nothing written.
    pub fn new(buf: &[u8]) -> (s: Self)
        ensures
            s.contents() == buf@,
            s.written() == Seq::<u8>::empty(),
    {
        let mut stream_contents: VecDeque<u8> = VecDeque::new();
        let mut i: usize = 0;
        while i < buf.len()
            invariant
                i <= buf.len(),
                stream_contents@ == buf@.take(i as int),
            decreases buf.len() - i,
        {
            stream_contents.push_back(buf[i]);
            assert(stream_contents@ =~= buf@.take(i + 1));
            i = i + 1;
        }
        assert(buf@.take(buf.len() as int) =~= buf@);
        MockStream { stream_contents, writes: Vec::new() }
    }

    /// Reads up to `remaining` bytes, fewer where fewer are left.
    pub fn read(&mut self, remaining: usize) -> (out: Vec<u8>)
        ensures
            out@ == old(self).contents().take(
                if old(self).contents().len() < remaining { old(self).contents().len() as int } else { remaining as int },
            ),
            final(self).contents() == old(self).contents().skip(out@.len() as int),
            final(self).written() == old(self).written(),
    {
        let ghost start = self.stream_contents@;
        let mut out: Vec<u8> = Vec::new();
        loop
            invariant
                out@.len() <= remaining,
                out@ == start.take(out@.len() as int),
                self.stream_contents@ == start.skip(out@.len() as int),
                out@.len() <= start.len(),
                self.writes@ == old(self).writes@,
                start == old(self).stream_contents@,
            ensures
                out@ == start.take(out@.len() as int),
                self.stream_contents@ == start.skip(out@.len() as int),
                self.writes@ == old(self).writes@,
                out@.len() == (if start.len() < remaining { start.len() as int } else { remaining as int }),
            decreases remaining - out@.len(),
        {
            if remaining <= out.len() {
                break;
            }
            match self.stream_contents.pop_front() {
                None => {
                    break;
                },
                Some(byte) => {
                    assert(start.take(out@.len() + 1 as int) =~= start.take(out@.len() as int).push(byte));
                    out.push(byte);
                    assert(self.stream_contents@ =~= start.skip(out@.len() as int));
                },
            }
        }
        out
    }

    /// Keeps the bytes written; all of them are taken.
    pub fn write(&mut self, buf: &[u8]) -> (n: usize)
        ensures
            n == buf@.len(),
            final(self).written() == old(self).written() + buf@,
            final(self).contents() == old(self).contents(),
    {
        let ghost before = self.writes@;
        let mut i: usize = 0;
        while i < buf.len()
            invariant
                i <= buf.len(),
                self.writes@ == before + buf@.take(i as int),
                self.stream_contents@ == old(self).stream_contents@,
                before == old(self).writes@,
            decreases buf.len() - i,
        {
            self.writes.push(buf[i]);
            assert(self.writes@ =~= before + buf@.take(i + 1));
            i = i + 1;
        }
        assert(buf@.take(buf.len() as int) =~= buf@);
        buf.len()
    }

    /// The bytes written so far.
    pub fn writes(&self) -> (res: &Vec<u8>)
        ensures
            res@ == self.written(),
    {
        &self.writes
    }
}

} // verus!
