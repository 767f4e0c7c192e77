//! Records about a target's threads and kernel handles.
use crate::module::str_eq;
use vstd::prelude::*;
use vstd::string::StringSliceAdditionalSpecFns;

verus! {

/// A thread as reported to users.
#[derive(Clone, Debug)]
pub struct UiThread {
    pub tid: u32,
    pub entry: usize,
    pub teb: usize,
    pub name: String,
    pub status: String,
    pub priority: String,
}

/// A mapping as reported to users.
#[derive(Clone, Debug)]
pub struct UiMemory {
    pub base: usize,
    pub size: usize,
    pub flags: u32,
    pub type_: String,
    pub protect: String,
    pub usage: String,
}

/// An open handle (file descriptor) of the target.
#[derive(Clone, Debug)]
pub struct UiHandle {
    pub ty: u32,
    pub handle: usize,
    pub kind_name: String,
    pub name: String,
}

/// What is known of a thread.
#[derive(Clone, Copy, Debug, PartialEq, Eq, Structural)]
pub struct ThreadData {
    pub tid: i32,
    pub wow64: bool,
}

/// The kind of file a descriptor refers to, when its metadata could be read.
#[derive(Clone, Copy, Debug, PartialEq, Eq, Structural)]
pub enum FileKind {
    Fifo,
    Socket,
    BlockDevice,
    Other,
}

/// `s` begins with the ASCII text `p`.
pub open spec fn starts_with(s: Seq<u8>, p: Seq<char>) -> bool {
    s.len() >= p.len() && forall|i: int| 0 <= i < p.len() ==> #[trigger] s[i] == p[i] as u8
}

fn has_prefix(s: &str, p: &str) -> (r: bool)
    requires
        vstd::string::is_ascii(p),
    ensures
        r == starts_with(s.spec_bytes(), p@),
{
    proof {
        vstd::string::is_ascii_spec_bytes(p);
    }
    let a = s.as_bytes();
    let b = p.as_bytes();
    if a.len() < b.len() {
        return false;
    }
    let mut i: usize = 0;
    while i < b.len()
        invariant
            i <= b@.len(),
            b@.len() <= a@.len(),
            a@ == s.spec_bytes(),
            b@ == Seq::new(p@.len(), |j: int| p@[j] as u8),
            forall|j: int| 0 <= j < i ==> #[trigger] a@[j] == b@[j],
        decreases b@.len() - i,
    {
        if a[i] != b[i] {
            return false;
        }
        i = i + 1;
    }
    proof {
        assert forall|j: int| 0 <= j < p@.len() implies #[trigger] s.spec_bytes()[j] == p@[j] as u8 by {
            assert(a@[j] == b@[j]);
        }
    }
    true
}

/// The type name of a handle: from its file kind when the metadata could be
/// read, else from its path (`socket:` and `pipe:` links).
pub open spec fn handle_type(kind: Option<FileKind>, path: Seq<u8>) -> Seq<char> {
    match kind {
        Some(FileKind::Fifo) => seq!['F', 'I', 'F', 'O'],
        Some(FileKind::Socket) => seq!['S', 'o', 'c', 'k', 'e', 't'],
        Some(FileKind::BlockDevice) => seq!['B', 'l', 'o', 'c', 'k'],
        Some(FileKind::Other) => seq!['F', 'i', 'l', 'e'],
        None => if starts_with(path, seq!['s', 'o', 'c', 'k', 'e', 't', ':']) {
            seq!['S', 'o', 'c', 'k', 'e', 't']
        } else if starts_with(path, seq!['p', 'i', 'p', 'e', ':']) {
            seq!['P', 'i', 'p', 'e']
        } else {
            Seq::empty()
        },
    }
}

pub fn handle_kind_name(kind: Option<FileKind>, path: &str) -> (r: &'static str)
    ensures
        r@ == handle_type(kind, path.spec_bytes()),
{
    proof {
        reveal_strlit("FIFO");
        reveal_strlit("Socket");
        reveal_strlit("Block");
        reveal_strlit("File");
        reveal_strlit("Pipe");
        reveal_strlit("");
        reveal_strlit("socket:");
        reveal_strlit("pipe:");
        assert("FIFO"@ =~= seq!['F', 'I', 'F', 'O']);
        assert("Socket"@ =~= seq!['S', 'o', 'c', 'k', 'e', 't']);
        assert("Block"@ =~= seq!['B', 'l', 'o', 'c', 'k']);
        assert("File"@ =~= seq!['F', 'i', 'l', 'e']);
        assert("Pipe"@ =~= seq!['P', 'i', 'p', 'e']);
        assert(""@ =~= Seq::<char>::empty());
        assert("socket:"@ =~= seq!['s', 'o', 'c', 'k', 'e', 't', ':']);
        assert("pipe:"@ =~= seq!['p', 'i', 'p', 'e', ':']);
    }
    match kind {
        Some(FileKind::Fifo) => "FIFO",
        Some(FileKind::Socket) => "Socket",
        Some(FileKind::BlockDevice) => "Block",
        Some(FileKind::Other) => "File",
        None => if has_prefix(path, "socket:") {
            "Socket"
        } else if has_prefix(path, "pipe:") {
            "Pipe"
        } else {
            ""
        },
    }
}

/// The record of descriptor `fd` whose link is `path`.
pub fn handle_info(fd: usize, kind: Option<FileKind>, path: &str) -> (r: UiHandle)
    ensures
        r.ty == 0,
        r.handle == fd,
        r.kind_name@ == handle_type(kind, path.spec_bytes()),
        r.name@ == path@,
{
    UiHandle { ty: 0, handle: fd, kind_name: handle_kind_name(kind, path).to_owned(), name: path.to_owned() }
}

} // verus!
