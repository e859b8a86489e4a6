//! Small string helpers shared by the command-line front end.

use vstd::prelude::*;

use crate::ytdl_line::{find_char, find_from};

verus! {

/// The window manager the desktop session is running under.
#[derive(Debug, PartialEq, Eq, Clone, Copy, Structural)]
pub enum WM {
    Hyprland,
    GenericX11,
}

/// Classifies a desktop session by the value of its desktop-environment
/// variable, if any; everything that is not Hyprland is treated as X11.
pub fn classify_wm(desktop: Option<&str>) -> (wm: WM)
    ensures
        wm == (match desktop {
            Some(name) => if name@ == "Hyprland"@ { WM::Hyprland } else { WM::GenericX11 },
            None => WM::GenericX11,
        }),
{
    match desktop {
        Some(name) => {
            if str_eq(name, "Hyprland") {
                WM::Hyprland
            } else {
                WM::GenericX11
            }
        },
        None => WM::GenericX11,
    }
}

/// Character-wise equality of two string slices.
pub fn str_eq(a: &str, b: &str) -> (r: bool)
    ensures
        r == (a@ == b@),
{
    let a_len = a.unicode_len();
    let b_len = b.unicode_len();
    if a_len != b_len {
        assert(a@ != b@);
        return false;
    }
    let mut i: usize = 0;
    while i < a_len
        invariant
            a_len == a@.len(),
            b_len == b@.len(),
            a_len == b_len,
            i <= a_len,
            forall|j: int| 0 <= j < i ==> a@[j] == b@[j],
        decreases a_len - i,
    {
        if a.get_char(i) != b.get_char(i) {
            assert(a@[i as int] != b@[i as int]);
            return false;
        }
        i += 1;
    }
    assert(a@ =~= b@);
    true
}

/// The literal `p` occurs in `s` at position `i`.
pub open spec fn match_at(s: Seq<char>, i: int, p: Seq<char>) -> bool {
    &&& 0 <= i
    &&& i + p.len() <= s.len()
    &&& s.subrange(i, i + p.len()) == p
}

/// Tests whether the literal `lit` occurs in `s` at position `i`, and where
/// the occurrence ends.
pub fn match_lit(s: &str, i: usize, lit: &str) -> (r: Option<usize>)
    requires
        i <= s@.len(),
    ensures
        match r {
            Some(j) => match_at(s@, i as int, lit@) && j == i + lit@.len() && j <= s@.len(),
            None => !match_at(s@, i as int, lit@),
        },
{
    let n = s.unicode_len();
    let m = lit.unicode_len();
    if m > n - i {
        return None;
    }
    let mut k: usize = 0;
    while k < m
        invariant
            i + m <= n,
            n == s@.len(),
            m == lit@.len(),
            k <= m,
            forall|t: int| 0 <= t < k ==> s@[i + t] == lit@[t],
        decreases m - k,
    {
        if s.get_char(i + k) != lit.get_char(k) {
            proof {
                assert(s@.subrange(i as int, i + m)[k as int] == s@[i + k]);
            }
            return None;
        }
        k += 1;
    }
    proof {
        assert(s@.subrange(i as int, i + m) =~= lit@);
    }
    Some(i + m)
}

/// A string holds `needle` somewhere when some position of it starts an
/// occurrence.
pub open spec fn contains_seq(h: Seq<char>, needle: Seq<char>) -> bool {
    exists|i: int| match_at(h, i, needle)
}

/// Substring search: whether `needle` occurs anywhere in `h`.
pub fn str_contains(h: &str, needle: &str) -> (r: bool)
    ensures
        r == contains_seq(h@, needle@),
{
    let hn = h.unicode_len();
    let nn = needle.unicode_len();
    if nn > hn {
        assert forall|i: int| !match_at(h@, i, needle@) by {}
        return false;
    }
    if nn == 0 {
        assert(match_at(h@, 0, needle@)) by {
            assert(h@.subrange(0, 0) =~= needle@);
        }
        return true;
    }
    let mut i: usize = 0;
    while i <= hn - nn
        invariant
            hn == h@.len(),
            nn == needle@.len(),
            1 <= nn <= hn,
            i <= hn - nn + 1,
            forall|j: int| 0 <= j < i ==> !match_at(h@, j, needle@),
        decreases hn - nn - i + 1,
    {
        if let Some(_) = match_lit(h, i, needle) {
            assert(match_at(h@, i as int, needle@));
            return true;
        }
        i += 1;
    }
    assert forall|j: int| !match_at(h@, j, needle@) by {
        if match_at(h@, j, needle@) {
            assert(0 <= j <= hn - nn);
        }
    }
    false
}

/// Drops the first and the last character of a string; a string shorter than
/// two characters becomes empty.
pub fn trim_sides(s: &str) -> (r: &str)
    ensures
        s@.len() >= 2 ==> r@ == s@.subrange(1, s@.len() - 1),
        s@.len() < 2 ==> r@ == Seq::<char>::empty(),
{
    let n = s.unicode_len();
    if n < 2 {
        let empty = "";
        proof {
            reveal_strlit("");
        }
        empty
    } else {
        s.substring_char(1, n - 1)
    }
}

/// Walks a string line by line, handing each line out with its trailing
/// newline kept; the last line may lack one.
pub struct LinesWithEndings<'a> {
    pub input: &'a str,
    pub pos: usize,
}

impl<'a> LinesWithEndings<'a> {
    /// The cursor never passes the end of the input.
    pub open spec fn wf(self) -> bool {
        self.pos <= self.input@.len()
    }

    /// What is left to hand out.
    pub open spec fn remaining(self) -> Seq<char> {
        self.input@.subrange(self.pos as int, self.input@.len() as int)
    }

    /// Starts walking `input` from its beginning.
    pub fn new(input: &'a str) -> (r: Self)
        ensures
            r.wf(),
            r.remaining() == input@,
    {
        let r = LinesWithEndings { input, pos: 0 };
        proof {
            assert(r.remaining() =~= input@);
        }
        r
    }

    /// Hands out the next line: everything up to and including the first
    /// newline of the rest, or all of the rest when none is left.  An
    /// exhausted walker reports `None`.
    pub fn next(&mut self) -> (r: Option<&'a str>)
        requires
            old(self).wf(),
        ensures
            final(self).wf(),
            match r {
                None => old(self).remaining().len() == 0 && *final(self) == *old(self),
                Some(line) => {
                    let nl = find_from(old(self).input@, old(self).pos as int, '\n');
                    let cut = if nl < old(self).input@.len() {
                        nl + 1
                    } else {
                        old(self).input@.len() as int
                    };
                    &&& old(self).remaining().len() > 0
                    &&& line@ == old(self).input@.subrange(old(self).pos as int, cut)
                    &&& line@.len() > 0
                    &&& final(self).remaining() == old(self).input@.subrange(
                        cut,
                        old(self).input@.len() as int,
                    )
                    &&& line@ + final(self).remaining() == old(self).remaining()
                },
            },
    {
        let n = self.input.unicode_len();
        if self.pos == n {
            proof {
                assert(old(self).remaining().len() == 0);
            }
            return None;
        }
        let nl = find_char(self.input, self.pos, '\n');
        let cut = if nl < n {
            nl + 1
        } else {
            n
        };
        let line = self.input.substring_char(self.pos, cut);
        proof {
            assert(old(self).remaining().len() > 0);
            assert(line@.len() > 0);
        }
        self.pos = cut;
        proof {
            assert(line@ + self.remaining() =~= old(self).remaining());
        }
        Some(line)
    }
}

} // verus!
