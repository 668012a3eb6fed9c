//! NUL-terminated strings, as the kernel and `exec` take them.

use std::convert::Infallible;
use std::str::FromStr;

use vstd::prelude::*;
use vstd::slice::slice_subrange;
use vstd::string::*;

use crate::frame::append_bytes;
use crate::text;

verus! {

/// Position of the first zero byte in `s`, or `s.len()` when there is none.
pub open spec fn nul_at(s: Seq<u8>) -> int
    decreases s.len(),
{
    if s.len() == 0 || s[0] == 0 {
        0
    } else {
        1 + nul_at(s.skip(1))
    }
}

/// Whether `s` holds no zero byte.
pub open spec fn nul_free(s: Seq<u8>) -> bool {
    forall|i: int| 0 <= i < s.len() ==> s[i] != 0
}

pub proof fn lemma_nul_at(s: Seq<u8>)
    ensures
        0 <= nul_at(s) <= s.len(),
        nul_at(s) < s.len() ==> s[nul_at(s)] == 0,
        forall|i: int| 0 <= i < nul_at(s) ==> s[i] != 0,
        nul_at(s) == s.len() <==> nul_free(s),
    decreases s.len(),
{
    if s.len() == 0 || s[0] == 0 {
        if s.len() > 0 {
            assert(!nul_free(s));
        }
    } else {
        let t = s.skip(1);
        lemma_nul_at(t);
        assert forall|i: int| 0 <= i < nul_at(s) implies s[i] != 0 by {
            if i > 0 {
                assert(s[i] == t[i - 1]);
            }
        }
        if nul_at(s) < s.len() {
            assert(s[nul_at(s)] == t[nul_at(t)]);
            assert(!nul_free(s));
        }
    }
}

/// Why bytes cannot be a C string.
#[derive(Clone, Copy, Debug, PartialEq, Eq, Structural)]
pub enum CStringError {
    /// The input holds a zero byte at the given position.
    ContainsNull(usize),
}

impl CStringError {
    /// The message of `e`.
    pub open spec fn text(&self) -> Seq<char> {
        match self {
            CStringError::ContainsNull(pos) => "null byte at position "@ + text::decimal(
                *pos as nat,
            ),
        }
    }

    pub fn message(&self) -> (msg: String)
        ensures
            msg@ == self.text(),
    {
        match self {
            CStringError::ContainsNull(pos) => {
                let mut msg: String = "null byte at position ".to_owned();
                text::push_decimal(&mut msg, *pos as u64);
                msg
            },
        }
    }
}

/// An owned string followed by a zero byte. Its view is the text without that
/// byte.
#[derive(Debug)]
pub struct CString {
    buf: Vec<u8>,
}

impl View for CString {
    type V = Seq<u8>;

    closed spec fn view(&self) -> Seq<u8> {
        self.buf@.drop_last()
    }
}

/// Position of the first zero byte of `s`, or its length.
fn find_nul(s: &[u8]) -> (pos: usize)
    ensures
        pos == nul_at(s@),
        pos <= s@.len(),
{
    proof {
        lemma_nul_at(s@);
    }
    let mut pos: usize = 0;
    while pos < s.len() && s[pos] != 0
        invariant
            pos <= s@.len(),
            forall|i: int| 0 <= i < pos ==> s@[i] != 0,
        decreases s@.len() - pos,
    {
        pos = pos + 1;
    }
    pos
}

/// Whether two byte strings are the same.
pub fn same_bytes(a: &[u8], b: &[u8]) -> (same: bool)
    ensures
        same == (a@ == b@),
{
    if a.len() != b.len() {
        return false;
    }
    let mut i: usize = 0;
    while i < a.len()
        invariant
            i <= a@.len() == b@.len(),
            forall|k: int| 0 <= k < i ==> a@[k] == b@[k],
        decreases a@.len() - i,
    {
        if a[i] != b[i] {
            return false;
        }
        i = i + 1;
    }
    assert(a@ =~= b@);
    true
}

impl CString {
    /// The text holds no zero byte, and one follows it.
    #[verifier::type_invariant]
    spec fn terminated(&self) -> bool {
        &&& self.buf@.len() > 0
        &&& self.buf@.last() == 0
        &&& nul_free(self.buf@.drop_last())
    }

    /// The part of `s` before its first zero byte, terminated.
    fn before_nul(s: &[u8]) -> (c: Self)
        ensures
            c@ == s@.take(nul_at(s@)),
    {
        let end: usize = find_nul(s);
        let mut buf: Vec<u8> = crate::lines::copy_range(s, 0, end);
        proof {
            lemma_nul_at(s@);
        }
        assert(buf@ =~= s@.take(end as int));
        let ghost text = buf@;
        buf.push(0);
        assert(buf@.drop_last() =~= text);
        assert(buf@.last() == 0);
        CString { buf }
    }

    /// The C string of bytes known to hold no zero byte.
    pub(crate) fn plain(s: &[u8]) -> (c: Self)
        requires
            nul_free(s@),
        ensures
            c@ == s@,
    {
        proof {
            lemma_nul_at(s@);
            assert(s@.take(s@.len() as int) =~= s@);
        }
        CString::before_nul(s)
    }

    /// The C string of `s`, which must hold no zero byte.
    pub fn try_from_bytes(s: &[u8]) -> (res: Result<Self, CStringError>)
        ensures
            match res {
                Ok(c) => nul_free(s@) && c@ == s@,
                Err(e) => !nul_free(s@) && e == CStringError::ContainsNull(nul_at(s@) as usize),
            },
    {
        proof {
            lemma_nul_at(s@);
        }
        let pos: usize = find_nul(s);
        if pos < s.len() {
            return Err(CStringError::ContainsNull(pos));
        }
        assert(s@.take(nul_at(s@)) =~= s@);
        Ok(CString::before_nul(s))
    }

    /// The C string of `s`, which C code sees up to the first zero byte.
    pub fn of(s: &str) -> (c: Self)
        ensures
            c@ == s.spec_bytes().take(nul_at(s.spec_bytes())),
            nul_free(s.spec_bytes()) ==> c@ == s.spec_bytes(),
    {
        proof {
            lemma_nul_at(s.spec_bytes());
            assert(s.spec_bytes().take(s.spec_bytes().len() as int) =~= s.spec_bytes());
        }
        CString::before_nul(s.as_bytes())
    }

    /// The text without the terminating zero byte.
    pub fn to_bytes(&self) -> (bytes: &[u8])
        ensures
            bytes@ == self@,
            nul_free(bytes@),
    {
        proof {
            use_type_invariant(self);
        }
        let end: usize = self.buf.len() - 1;
        assert(self.buf@.subrange(0, end as int) =~= self.buf@.drop_last());
        slice_subrange(self.buf.as_slice(), 0, end)
    }

    /// The memory that C code reads: the text and its zero byte.
    pub fn as_raw(&self) -> (raw: &[u8])
        ensures
            raw@ == self@.push(0),
    {
        proof {
            use_type_invariant(self);
        }
        assert(self.buf@ =~= self.buf@.drop_last().push(0));
        self.buf.as_slice()
    }

    /// A borrowed view of this string.
    pub fn borrow(&self) -> (c: CStr<'_>)
        ensures
            c@ == self@,
    {
        CStr { owner: self }
    }

    /// Gives up ownership: the text and its zero byte.
    pub fn into_raw(self) -> (raw: Vec<u8>)
        ensures
            raw@ == self@.push(0),
    {
        proof {
            use_type_invariant(&self);
        }
        assert(self.buf@ =~= self.buf@.drop_last().push(0));
        self.buf
    }

    /// `into_raw` of a string that may be absent; absence stays absence.
    pub fn into_raw_option(this: Option<Self>) -> (raw: Option<Vec<u8>>)
        ensures
            match (this, raw) {
                (None, None) => true,
                (Some(c), Some(r)) => r@ == c@.push(0),
                _ => false,
            },
    {
        match this {
            Some(s) => Some(s.into_raw()),
            None => None,
        }
    }

    /// `into_raw` of every string.
    pub fn into_raw_vec(v: Vec<CString>) -> (raw: Vec<Vec<u8>>)
        ensures
            raw@.len() == v@.len(),
            forall|i: int| 0 <= i < v@.len() ==> (#[trigger] raw@[i])@ == v@[i]@.push(0),
    {
        let mut raw: Vec<Vec<u8>> = Vec::with_capacity(v.len());
        for c in it: v
            invariant
                raw@.len() == it.index(),
                it.seq() == v@,
                forall|i: int|
                    0 <= i < raw@.len() ==> (#[trigger] raw@[i])@ == it.seq()[i]@.push(0),
        {
            raw.push(c.into_raw());
        }
        raw
    }

    /// Every string, present.
    pub fn into_vec_of_options(v: Vec<CString>) -> (out: Vec<Option<CString>>)
        ensures
            out@ == v@.map_values(|c: CString| Some(c)),
    {
        let mut out: Vec<Option<CString>> = Vec::with_capacity(v.len());
        for c in it: v
            invariant
                out@.len() == it.index(),
                it.seq() == v@,
                forall|i: int| 0 <= i < out@.len() ==> #[trigger] out@[i] == Some(it.seq()[i]),
        {
            out.push(Some(c));
        }
        assert(out@ =~= v@.map_values(|c: CString| Some(c)));
        out
    }
}

impl FromStr for CString {
    type Err = Infallible;

    fn from_str(s: &str) -> (res: Result<Self, Infallible>)
        ensures
            res matches Ok(c) && c@ == s.spec_bytes().take(nul_at(s.spec_bytes())),
    {
        Ok(CString::of(s))
    }
}

impl PartialEq for CString {
    fn eq(&self, other: &Self) -> (same: bool) {
        same_bytes(self.to_bytes(), other.to_bytes())
    }
}

impl vstd::std_specs::cmp::PartialEqSpecImpl for CString {
    open spec fn obeys_eq_spec() -> bool {
        true
    }

    open spec fn eq_spec(&self, other: &Self) -> bool {
        self@ == other@
    }
}

impl Eq for CString {}

impl Clone for CString {
    fn clone(&self) -> (copy: Self)
        ensures
            copy@ == self@,
    {
        let bytes: &[u8] = self.to_bytes();
        proof {
            lemma_nul_at(bytes@);
            assert(bytes@.take(bytes@.len() as int) =~= bytes@);
        }
        CString::before_nul(bytes)
    }
}

/// A borrowed C string.
#[derive(Clone, Copy, Debug)]
pub struct CStr<'a> {
    owner: &'a CString,
}

impl<'a> View for CStr<'a> {
    type V = Seq<u8>;

    closed spec fn view(&self) -> Seq<u8> {
        self.owner@
    }
}

impl<'a> CStr<'a> {
    /// The text without the terminating zero byte.
    pub fn to_bytes(self) -> (bytes: &'a [u8])
        ensures
            bytes@ == self@,
    {
        self.owner.to_bytes()
    }

    /// The memory that C code reads: the text and its zero byte.
    pub fn as_raw(self) -> (raw: &'a [u8])
        ensures
            raw@ == self@.push(0),
    {
        self.owner.as_raw()
    }

    /// `as_raw` of a string that may be absent; absence stays absence.
    pub fn as_raw_option(this: Option<Self>) -> (raw: Option<&'a [u8]>)
        ensures
            match (this, raw) {
                (None, None) => true,
                (Some(c), Some(r)) => r@ == c@.push(0),
                _ => false,
            },
    {
        match this {
            Some(s) => Some(s.as_raw()),
            None => None,
        }
    }
}

impl<'a> PartialEq for CStr<'a> {
    fn eq(&self, other: &Self) -> (same: bool) {
        same_bytes(self.owner.to_bytes(), other.owner.to_bytes())
    }
}

impl<'a> vstd::std_specs::cmp::PartialEqSpecImpl for CStr<'a> {
    open spec fn obeys_eq_spec() -> bool {
        true
    }

    open spec fn eq_spec(&self, other: &Self) -> bool {
        self@ == other@
    }
}

impl<'a> Eq for CStr<'a> {}

/// The texts of `command`, joined by single spaces.
pub open spec fn spaced(command: Seq<Seq<u8>>) -> Seq<u8>
    decreases command.len(),
{
    if command.len() == 0 {
        Seq::empty()
    } else if command.len() == 1 {
        command[0]
    } else {
        spaced(command.drop_last()).push(32) + command.last()
    }
}

/// The texts of a command's words.
pub open spec fn words(command: Seq<CString>) -> Seq<Seq<u8>> {
    command.map_values(|c: CString| c@)
}

/// The command as one line: its words joined by single spaces.
pub fn command_line(command: &Vec<CString>) -> (line: Vec<u8>)
    ensures
        line@ == spaced(words(command@)),
{
    let mut line: Vec<u8> = Vec::new();
    let ghost all = words(command@);
    let mut i: usize = 0;
    assert(all.take(0) =~= Seq::empty());
    while i < command.len()
        invariant
            i <= command@.len(),
            all == words(command@),
            line@ == spaced(all.take(i as int)),
        decreases command@.len() - i,
    {
        let ghost before = line@;
        if i > 0 {
            line.push(32);
        }
        append_bytes(&mut line, command[i].to_bytes());
        proof {
            let t = all.take(i + 1);
            assert(t.drop_last() =~= all.take(i as int));
            assert(t.last() == command@[i as int]@);
            assert(line@ =~= spaced(t));
        }
        i = i + 1;
    }
    assert(all.take(i as int) =~= all);
    line
}

/// A command line reads as its words, with one space between each two and none
/// at either end.
pub proof fn words_are_spaced_singly(a: Seq<Seq<u8>>, b: Seq<Seq<u8>>)
    requires
        a.len() > 0,
        b.len() > 0,
    ensures
        spaced(a + b) == spaced(a) + seq![32u8] + spaced(b),
        a.len() == 1 ==> spaced(a) == a[0],
        spaced(Seq::<Seq<u8>>::empty()).len() == 0,
    decreases b.len(),
{
    assert((a + b).drop_last() =~= a + b.drop_last());
    assert((a + b).last() == b.last());
    if b.len() == 1 {
        assert(a + b.drop_last() =~= a);
        assert(spaced(a).push(32) + b.last() =~= spaced(a) + seq![32u8] + spaced(b));
    } else {
        words_are_spaced_singly(a, b.drop_last());
        assert(spaced(a + b) =~= spaced(a) + seq![32u8] + spaced(b));
    }
}

/// The words of a command line are those of the command, in order.
pub proof fn words_keep_their_text(command: Seq<CString>, i: int)
    requires
        0 <= i < command.len(),
    ensures
        words(command).len() == command.len(),
        words(command)[i] == command[i]@,
{
}

/// A refusal names the position of the first zero byte.
pub proof fn refusal_names_the_position(pos: usize)
    ensures
        text::number_of(CStringError::ContainsNull(pos).text().skip(22)) == pos,
        CStringError::ContainsNull(pos).text().take(22) == "null byte at position "@,
{
    reveal_strlit("null byte at position ");
    let msg = CStringError::ContainsNull(pos).text();
    assert(msg.skip(22) =~= text::decimal(pos as nat));
    assert(msg.take(22) =~= "null byte at position "@);
    text::decimal_reads_back(pos as nat);
}

} // verus!
