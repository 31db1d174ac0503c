//! Host-input helpers: mapping typed characters and special keys to the
//! bytes the child process receives, filtering control characters out of
//! typed text, tracking the pending input line so a typed "exit" can close
//! the session, and reading a yes/no choice from prompt input.

use vstd::prelude::*;

verus! {

/// Whether a character is a control character (the C0 range, delete, and
/// the C1 range): exactly the characters typed text drops.
pub open spec fn is_control_char(c: char) -> bool {
    (c as u32) < 0x20 || (0x7F <= c as u32 && c as u32 <= 0x9F)
}

/// `s` with its control characters removed, in order.
pub open spec fn printable_only(s: Seq<char>) -> Seq<char> {
    s.filter(|c: char| !is_control_char(c))
}

/// The control byte a Ctrl-chord sends for a letter key: 1 for A through 26
/// for Z (either case), nothing for other characters.
pub open spec fn control_code_spec(ch: char) -> Option<u8> {
    let u = ch as u32;
    let up = if 97 <= u <= 122 {
        u - 32
    } else {
        u as int
    };
    if 65 <= up <= 90 {
        Some((up - 64) as u8)
    } else {
        None
    }
}

/// Maps a letter typed with Ctrl held to the control byte the child
/// receives; other characters map to nothing.
pub fn control_code_for_char(ch: char) -> (r: Option<u8>)
    ensures
        r == control_code_spec(ch),
        r is Some ==> 1 <= r->0 <= 26,
{
    let u = ch as u32;
    let up = if 97 <= u && u <= 122 {
        u - 32
    } else {
        u
    };
    if 65 <= up && up <= 90 {
        Some((up - 64) as u8)
    } else {
        None
    }
}

/// The named keys that send a byte of their own rather than text.
#[derive(Debug, Copy, Clone, PartialEq, Eq, Structural)]
pub enum SpecialKey {
    Enter,
    Backspace,
    Escape,
    Tab,
}

/// The byte a special key sends to the child process.
pub fn special_key_byte(key: SpecialKey) -> (r: u8)
    ensures
        key is Enter ==> r == 0x0Du8,
        key is Backspace ==> r == 0x08u8,
        key is Escape ==> r == 0x1Bu8,
        key is Tab ==> r == 0x09u8,
{
    match key {
        SpecialKey::Enter => 0x0D,
        SpecialKey::Backspace => 0x08,
        SpecialKey::Escape => 0x1B,
        SpecialKey::Tab => 0x09,
    }
}

/// Removes control characters from typed text, keeping everything else in
/// order; what remains is what is echoed and sent.
pub fn filter_printable(text: &[char]) -> (r: Vec<char>)
    ensures
        r@ == printable_only(text@),
{
    let n = text.len();
    let mut out: Vec<char> = Vec::new();
    let mut i: usize = 0;
    while i < n
        invariant
            n == text@.len(),
            i <= n,
            out@ == printable_only(text@.take(i as int)),
        decreases n - i,
    {
        let c = text[i];
        proof {
            reveal(Seq::filter);
            assert(text@.take(i as int + 1).drop_last() =~= text@.take(i as int));
            assert(text@.take(i as int + 1).last() == c);
        }
        let u = c as u32;
        if !(u < 0x20 || (0x7F <= u && u <= 0x9F)) {
            out.push(c);
        }
        i = i + 1;
    }
    proof {
        assert(text@.take(n as int) =~= text@);
    }
    out
}

/// Whether a character has the Unicode white-space property: what the ends
/// of a typed command are trimmed of.
pub open spec fn is_blank_char(c: char) -> bool {
    ||| c == ' '
    ||| c == '\u{9}'
    ||| c == '\u{A}'
    ||| c == '\u{B}'
    ||| c == '\u{C}'
    ||| c == '\u{D}'
    ||| c == '\u{85}'
    ||| c == '\u{A0}'
    ||| c == '\u{1680}'
    ||| ('\u{2000}' <= c && c <= '\u{200A}')
    ||| c == '\u{2028}'
    ||| c == '\u{2029}'
    ||| c == '\u{202F}'
    ||| c == '\u{205F}'
    ||| c == '\u{3000}'
}

/// `s` without its leading white space.
pub open spec fn trim_start(s: Seq<char>) -> Seq<char>
    decreases s.len(),
{
    if s.len() > 0 && is_blank_char(s[0]) {
        trim_start(s.drop_first())
    } else {
        s
    }
}

/// `s` without its trailing white space.
pub open spec fn trim_end(s: Seq<char>) -> Seq<char>
    decreases s.len(),
{
    if s.len() > 0 && is_blank_char(s.last()) {
        trim_end(s.drop_last())
    } else {
        s
    }
}

/// `s` without white space at either end.
pub open spec fn trimmed(s: Seq<char>) -> Seq<char> {
    trim_end(trim_start(s))
}

/// Whether a pending input line reads "exit" (any letter case, surrounding
/// white space ignored): typing it closes the session from the host's side.
pub open spec fn is_exit_command(s: Seq<char>) -> bool {
    let t = trimmed(s);
    &&& t.len() == 4
    &&& (t[0] == 'e' || t[0] == 'E')
    &&& (t[1] == 'x' || t[1] == 'X')
    &&& (t[2] == 'i' || t[2] == 'I')
    &&& (t[3] == 't' || t[3] == 'T')
}

/// If everything before `k` is white space (and `k` stops at the first
/// non-blank character or the end), trimming the start skips exactly `k`.
proof fn lemma_trim_start_at(s: Seq<char>, k: int)
    requires
        0 <= k <= s.len(),
        forall|j: int| 0 <= j < k ==> is_blank_char(s[j]),
        k < s.len() ==> !is_blank_char(s[k]),
    ensures
        trim_start(s) == s.skip(k),
    decreases k,
{
    if k == 0 {
        assert(trim_start(s) =~= s.skip(0));
    } else {
        assert(is_blank_char(s[0]));
        lemma_trim_start_at(s.drop_first(), k - 1);
        assert(s.drop_first().skip(k - 1) =~= s.skip(k));
    }
}

/// If everything from `e` on is white space (and `e` stops just past the
/// last non-blank character or at zero), trimming the end keeps exactly the
/// first `e` characters.
proof fn lemma_trim_end_at(s: Seq<char>, e: int)
    requires
        0 <= e <= s.len(),
        forall|j: int| e <= j < s.len() ==> is_blank_char(s[j]),
        e > 0 ==> !is_blank_char(s[e - 1]),
    ensures
        trim_end(s) == s.take(e),
    decreases s.len() - e,
{
    if e == s.len() {
        if s.len() > 0 && is_blank_char(s.last()) {
            assert(!is_blank_char(s[e - 1]));
            assert(false);
        }
        assert(trim_end(s) =~= s.take(e));
    } else {
        assert(is_blank_char(s.last()));
        lemma_trim_end_at(s.drop_last(), e);
        assert(s.drop_last().take(e) =~= s.take(e));
    }
}

/// The line of input typed since the last Enter. The visible character
/// count is tracked separately from the characters: an interrupt resets the
/// count alone, which gates backspace, while the exit check reads the
/// characters.
pub struct InputLine {
    count: usize,
    chars: Vec<char>,
}

impl InputLine {
    /// The pending characters.
    pub closed spec fn chars_view(&self) -> Seq<char> {
        self.chars@
    }

    /// The count backspace is gated on.
    pub closed spec fn count_spec(&self) -> usize {
        self.count
    }

    pub fn new() -> (r: Self)
        ensures
            r.chars_view() == Seq::<char>::empty(),
            r.count_spec() == 0,
            r.wf(),
    {
        Self { count: 0, chars: Vec::new() }
    }

    /// The count never exceeds the pending characters.
    pub open spec fn wf(&self) -> bool {
        self.count_spec() <= self.chars_view().len()
    }

    /// Appends typed (already filtered) text.
    pub fn typed(&mut self, text: &[char])
        ensures
            final(self).chars_view() == old(self).chars_view() + text@,
            old(self).wf() ==> final(self).wf(),
            final(self).count_spec() == (if old(self).count_spec() + text@.len() <= usize::MAX {
                old(self).count_spec() + text@.len()
            } else {
                usize::MAX as int
            }),
    {
        let n = text.len();
        if self.count <= usize::MAX - n {
            self.count = self.count + n;
        } else {
            self.count = usize::MAX;
        }
        let ghost new_count = self.count;
        let mut i: usize = 0;
        while i < n
            invariant
                n == text@.len(),
                i <= n,
                self.chars@ == old(self).chars@ + text@.take(i as int),
                self.count == new_count,
                new_count == (if old(self).count + n <= usize::MAX {
                    old(self).count + n
                } else {
                    usize::MAX as int
                }),
            decreases n - i,
        {
            let c = text[i];
            self.chars.push(c);
            proof {
                assert(old(self).chars@ + text@.take(i as int + 1) =~= (old(self).chars@
                    + text@.take(i as int)).push(c));
            }
            i = i + 1;
        }
        proof {
            assert(text@.take(n as int) =~= text@);
        }
    }

    /// One press of backspace: reports whether a backspace byte should go to
    /// the child (only while the count says something is pending).
    pub fn backspace(&mut self) -> (send: bool)
        requires
            old(self).wf(),
        ensures
            send == (old(self).count_spec() > 0),
            send ==> final(self).count_spec() == old(self).count_spec() - 1 && final(self).chars_view() == old(self).chars_view().drop_last(),
            !send ==> *final(self) == *old(self),
            final(self).wf(),
    {
        if self.count > 0 {
            self.count = self.count - 1;
            self.chars.pop();
            true
        } else {
            false
        }
    }

    /// An interrupt chord: the visible count resets; the characters stay.
    pub fn interrupted(&mut self)
        ensures
            final(self).count_spec() == 0,
            final(self).chars_view() == old(self).chars_view(),
            final(self).wf(),
    {
        self.count = 0;
    }

    /// Enter was pressed: reports whether the pending line reads "exit",
    /// and starts a fresh line either way.
    pub fn enter(&mut self) -> (exit_requested: bool)
        ensures
            exit_requested == is_exit_command(old(self).chars_view()),
            final(self).chars_view() == Seq::<char>::empty(),
            final(self).count_spec() == 0,
            final(self).wf(),
    {
        let n = self.chars.len();
        let mut start: usize = 0;
        while start < n && is_blank(self.chars[start])
            invariant
                n == self.chars@.len(),
                start <= n,
                forall|j: int| 0 <= j < start ==> is_blank_char(self.chars@[j]),
            decreases n - start,
        {
            start = start + 1;
        }
        let mut end: usize = n;
        while end > start && is_blank(self.chars[end - 1])
            invariant
                n == self.chars@.len(),
                start <= end <= n,
                forall|j: int| end <= j < n ==> is_blank_char(self.chars@[j]),
            decreases end,
        {
            end = end - 1;
        }
        proof {
            lemma_trim_start_at(self.chars@, start as int);
            lemma_trim_end_at(self.chars@.skip(start as int), end - start);
            assert(self.chars@.skip(start as int).take(end - start) =~= self.chars@.subrange(
                start as int,
                end as int,
            ));
        }
        let exit_requested = if end - start == 4 {
            let c0 = self.chars[start];
            let c1 = self.chars[start + 1];
            let c2 = self.chars[start + 2];
            let c3 = self.chars[start + 3];
            (c0 == 'e' || c0 == 'E') && (c1 == 'x' || c1 == 'X') && (c2 == 'i' || c2 == 'I') && (c3
                == 't' || c3 == 'T')
        } else {
            false
        };
        self.count = 0;
        self.chars.clear();
        exit_requested
    }

    /// Starts over, as when a new session starts.
    pub fn reset(&mut self)
        ensures
            final(self).chars_view() == Seq::<char>::empty(),
            final(self).count_spec() == 0,
            final(self).wf(),
    {
        self.count = 0;
        self.chars.clear();
    }
}

/// White-space test a trim loop uses.
fn is_blank(c: char) -> (r: bool)
    ensures
        r == is_blank_char(c),
{
    let u = c as u32;
    u == 0x20 || u == 0x9 || u == 0xA || u == 0xB || u == 0xC || u == 0xD || u == 0x85 || u == 0xA0
        || u == 0x1680 || (0x2000 <= u && u <= 0x200A) || u == 0x2028 || u == 0x2029 || u == 0x202F
        || u == 0x205F || u == 0x3000
}

/// The first decisive answer in prompt input: y/Y accepts, n/N declines,
/// anything else is passed over.
pub open spec fn choice_spec(s: Seq<char>) -> Option<bool>
    decreases s.len(),
{
    if s.len() == 0 {
        None
    } else if s[0] == 'y' || s[0] == 'Y' {
        Some(true)
    } else if s[0] == 'n' || s[0] == 'N' {
        Some(false)
    } else {
        choice_spec(s.drop_first())
    }
}

/// A decisive prefix-free prefix leaves the answer unchanged.
proof fn lemma_choice_skip(s: Seq<char>, i: int)
    requires
        0 <= i <= s.len(),
        forall|j: int|
            0 <= j < i ==> s[j] != 'y' && s[j] != 'Y' && s[j] != 'n' && s[j] != 'N',
    ensures
        choice_spec(s) == choice_spec(s.skip(i)),
    decreases i,
{
    if i > 0 {
        lemma_choice_skip(s.drop_first(), i - 1);
        assert(s.drop_first().skip(i - 1) =~= s.skip(i));
        assert(s.skip(0) =~= s);
    } else {
        assert(s.skip(0) =~= s);
    }
}

/// Reads the first y/Y or n/N out of prompt input.
pub fn prompt_choice(text: &[char]) -> (r: Option<bool>)
    ensures
        r == choice_spec(text@),
{
    let n = text.len();
    let mut i: usize = 0;
    while i < n
        invariant
            n == text@.len(),
            i <= n,
            forall|j: int|
                0 <= j < i ==> text@[j] != 'y' && text@[j] != 'Y' && text@[j] != 'n' && text@[j]
                    != 'N',
        decreases n - i,
    {
        let c = text[i];
        if c == 'y' || c == 'Y' {
            proof {
                lemma_choice_skip(text@, i as int);
            }
            return Some(true);
        }
        if c == 'n' || c == 'N' {
            proof {
                lemma_choice_skip(text@, i as int);
            }
            return Some(false);
        }
        i = i + 1;
    }
    proof {
        lemma_choice_skip(text@, n as int);
        assert(text@.skip(n as int) =~= Seq::<char>::empty());
    }
    None
}

} // verus!
