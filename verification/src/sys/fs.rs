//! The seam through which files are read and written.
use vstd::prelude::*;

verus! {

/// One file operation: what was asked, and what came back.
#[allow(inconsistent_fields)]
pub enum FsOp {
    Read { path: Seq<char>, answer: Result<String, String> },
    Write {
        dir: Seq<char>,
        filename: Seq<char>,
        contents: Seq<char>,
        answer: Result<(), String>,
    },
}

/// Reads and writes files. `ops` is the history of the operations, oldest first.
pub trait Fs {
    spec fn ops(&self) -> Seq<FsOp>;

    /// Read a whole file as text.
    fn read_to_string(&mut self, path: &str) -> (answer: Result<String, String>)
        ensures
            final(self).ops() == old(self).ops().push((FsOp::Read { path: path@, answer })),
    ;

    /// Write `contents` to `dir/filename`, creating the directory, in such a way
    /// that a reader never sees a partial file.
    fn write_atomic(&mut self, dir: &str, filename: &str, contents: &str) -> (answer: Result<
        (),
        String,
    >)
        ensures
            final(self).ops() == old(self).ops().push(
                (FsOp::Write {
                    dir: dir@,
                    filename: filename@,
                    contents: contents@,
                    answer,
                }),
            ),
    ;
}

/// Reads and writes files by two functions.
pub struct FnFs<R: Fn(&str) -> Result<String, String>, W: Fn(&str, &str, &str) -> Result<(), String>> {
    read: R,
    write: W,
    history: Ghost<Seq<FsOp>>,
}

impl<R: Fn(&str) -> Result<String, String>, W: Fn(&str, &str, &str) -> Result<(), String>> FnFs<R, W> {
    #[verifier::type_invariant]
    spec fn total(self) -> bool {
        &&& forall|path: &str| call_requires(self.read, (path,))
        &&& forall|dir: &str, filename: &str, contents: &str|
            call_requires(self.write, (dir, filename, contents))
    }

    /// A file system of which nothing has been asked yet. `write` gets the directory,
    /// the file name and the contents.
    pub fn new(read: R, write: W) -> (r: Self)
        requires
            forall|path: &str| call_requires(read, (path,)),
            forall|dir: &str, filename: &str, contents: &str|
                call_requires(write, (dir, filename, contents)),
        ensures
            r.ops() == Seq::<FsOp>::empty(),
    {
        FnFs { read, write, history: Ghost(Seq::empty()) }
    }
}

impl<R: Fn(&str) -> Result<String, String>, W: Fn(&str, &str, &str) -> Result<(), String>> Fs for FnFs<R, W> {
    closed spec fn ops(&self) -> Seq<FsOp> {
        self.history@
    }

    fn read_to_string(&mut self, path: &str) -> (answer: Result<String, String>) {
        proof {
            use_type_invariant(&*self);
        }
        let answer = (self.read)(path);
        let ghost op = FsOp::Read { path: path@, answer };
        self.history = Ghost(self.history@.push(op));
        answer
    }

    fn write_atomic(&mut self, dir: &str, filename: &str, contents: &str) -> (answer: Result<
        (),
        String,
    >) {
        proof {
            use_type_invariant(&*self);
        }
        let answer = (self.write)(dir, filename, contents);
        let ghost op = FsOp::Write {
            dir: dir@,
            filename: filename@,
            contents: contents@,
            answer,
        };
        self.history = Ghost(self.history@.push(op));
        answer
    }
}

} // verus!
