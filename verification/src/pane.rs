//! Shadow prompt: type-ahead buffered while a command is running.

use vstd::prelude::*;

use crate::text::{
    char_index_at, char_len_utf8, char_width, chars_of, is_boundary, lemma_char_index_at,
    lemma_scalar_width, lemma_take_all, lemma_utf8_concat, lemma_utf8_take_step, string_clear,
    string_insert, string_insert_str, string_remove, utf8_len,
};

verus! {

/// Shadow prompt state for type-ahead during command execution.
#[derive(Debug, Clone)]
pub struct ShadowPrompt {
    /// Buffered input that will be sent when command completes.
    pub buffer: String,
    /// Cursor position within the buffer, as a byte offset.
    pub cursor: usize,
    /// Whether the shadow prompt should be visible.
    pub visible: bool,
}

impl ShadowPrompt {
    /// The cursor sits at the start of a character or at the end of the
    /// buffer, and the buffer's byte length fits in `usize`.
    pub open spec fn wf(&self) -> bool {
        &&& is_boundary(self.buffer@, self.cursor as int)
        &&& utf8_len(self.buffer@) <= usize::MAX
    }

    /// Index, in characters, of the character the cursor is before.
    pub open spec fn cursor_index(&self) -> int {
        char_index_at(self.buffer@, self.cursor as int)
    }

    /// An empty, hidden prompt.
    pub fn new() -> (p: ShadowPrompt)
        ensures
            p.wf(),
            p.buffer@ == Seq::<char>::empty(),
            p.cursor == 0,
            !p.visible,
    {
        let p = ShadowPrompt { buffer: String::new(), cursor: 0, visible: false };
        proof {
            lemma_char_index_at(p.buffer@, 0);
            assert(p.buffer@.take(0) =~= p.buffer@);
        }
        p
    }

    /// Character index of the byte offset `byte`, which starts a character of
    /// `chars` or is its end.
    fn char_index(chars: &Vec<char>, byte: usize) -> (k: usize)
        requires
            is_boundary(chars@, byte as int),
        ensures
            k == char_index_at(chars@, byte as int),
            k <= chars@.len(),
            utf8_len(chars@.take(k as int)) == byte,
    {
        let ghost target = char_index_at(chars@, byte as int);
        proof {
            lemma_char_index_at(chars@, target);
        }
        let n = chars.len();
        let mut k: usize = 0;
        let mut offset: usize = 0;
        proof {
            assert(chars@.take(0) =~= Seq::<char>::empty());
            assert(utf8_len(Seq::<char>::empty()) == 0);
        }
        while offset < byte
            invariant
                0 <= target <= chars@.len(),
                n == chars@.len(),
                utf8_len(chars@.take(target)) == byte,
                k <= target,
                offset == utf8_len(chars@.take(k as int)),
                offset <= byte,
            decreases target - k,
        {
            proof {
                if k == target {
                    assert(false);
                }
                lemma_utf8_take_step(chars@, k as int);
                if k + 1 < target {
                    crate::text::lemma_utf8_take_strict(chars@, k + 1, target);
                }
            }
            offset = offset + char_len_utf8(chars[k]);
            k = k + 1;
        }
        proof {
            if k < target {
                crate::text::lemma_utf8_take_strict(chars@, k as int, target);
            }
        }
        k
    }

    /// Insert a character at the cursor position.
    pub fn insert(&mut self, ch: char)
        requires
            old(self).wf(),
            utf8_len(old(self).buffer@) + 4 <= usize::MAX,
        ensures
            final(self).wf(),
            final(self).buffer@ == old(self).buffer@.insert(old(self).cursor_index(), ch),
            final(self).cursor == old(self).cursor + char_width(ch),
            final(self).cursor_index() == old(self).cursor_index() + 1,
            final(self).visible,
    {
        let ghost old_buf = self.buffer@;
        let ghost k = char_index_at(old_buf, self.cursor as int);
        proof {
            lemma_char_index_at(old_buf, k);
        }
        string_insert(&mut self.buffer, self.cursor, ch);
        let w = char_len_utf8(ch);
        proof {
            let nb = self.buffer@;
            assert(nb.take(k + 1) =~= old_buf.take(k).push(ch));
            assert(nb.take(k + 1) =~= old_buf.take(k) + seq![ch]);
            lemma_utf8_concat(old_buf.take(k), seq![ch]);
            crate::text::lemma_utf8_single(ch);
            assert(nb =~= old_buf.take(k) + seq![ch] + old_buf.skip(k));
            lemma_utf8_concat(old_buf.take(k) + seq![ch], old_buf.skip(k));
            assert(old_buf =~= old_buf.take(k) + old_buf.skip(k));
            lemma_utf8_concat(old_buf.take(k), old_buf.skip(k));
            lemma_char_index_at(nb, k + 1);
        }
        self.cursor = self.cursor + w;
        self.visible = true;
    }

    /// Insert a string at the cursor position.
    pub fn insert_str(&mut self, s: &str)
        requires
            old(self).wf(),
            utf8_len(old(self).buffer@) + utf8_len(s@) <= usize::MAX,
        ensures
            final(self).wf(),
            final(self).buffer@ == old(self).buffer@.take(old(self).cursor_index()) + s@ + old(
                self,
            ).buffer@.skip(old(self).cursor_index()),
            final(self).cursor == old(self).cursor + utf8_len(s@),
            final(self).cursor_index() == old(self).cursor_index() + s@.len(),
            final(self).visible,
    {
        let ghost old_buf = self.buffer@;
        let ghost k = char_index_at(old_buf, self.cursor as int);
        proof {
            lemma_char_index_at(old_buf, k);
        }
        string_insert_str(&mut self.buffer, self.cursor, s);
        let n = s.len();
        proof {
            let nb = self.buffer@;
            assert(nb =~= old_buf.take(k) + s@ + old_buf.skip(k));
            assert(nb.take(k + s@.len()) =~= old_buf.take(k) + s@);
            lemma_utf8_concat(old_buf.take(k), s@);
            lemma_utf8_concat(old_buf.take(k) + s@, old_buf.skip(k));
            assert(old_buf =~= old_buf.take(k) + old_buf.skip(k));
            lemma_utf8_concat(old_buf.take(k), old_buf.skip(k));
            lemma_char_index_at(nb, k + s@.len());
        }
        self.cursor = self.cursor + n;
        self.visible = true;
    }

    /// Delete character before cursor (backspace).
    pub fn backspace(&mut self)
        requires
            old(self).wf(),
        ensures
            final(self).wf(),
            final(self).visible == old(self).visible,
            old(self).cursor == 0 ==> final(self).buffer@ == old(self).buffer@ && final(self).cursor == 0,
            old(self).cursor > 0 ==> {
                let k = old(self).cursor_index();
                &&& final(self).buffer@ == old(self).buffer@.remove(k - 1)
                &&& final(self).cursor == old(self).cursor - char_width(old(self).buffer@[k - 1])
                &&& final(self).cursor_index() == k - 1
            },
    {
        if self.cursor > 0 {
            let chars = chars_of(self.buffer.as_str());
            let k = Self::char_index(&chars, self.cursor);
            let ghost old_buf = self.buffer@;
            proof {
                if k == 0 {
                    assert(old_buf.take(0) =~= Seq::<char>::empty());
                    assert(utf8_len(Seq::<char>::empty()) == 0);
                }
                lemma_utf8_take_step(old_buf, k - 1);
            }
            let prev = self.cursor - char_len_utf8(chars[k - 1]);
            string_remove(&mut self.buffer, prev);
            proof {
                let nb = self.buffer@;
                assert(nb.take(k - 1) =~= old_buf.take(k - 1));
                lemma_char_index_at(nb, k - 1);
                assert(old_buf =~= old_buf.take(k - 1) + seq![old_buf[k - 1]] + old_buf.skip(k as int));
                assert(nb =~= old_buf.take(k - 1) + old_buf.skip(k as int));
                lemma_utf8_concat(old_buf.take(k - 1) + seq![old_buf[k - 1]], old_buf.skip(k as int));
                lemma_utf8_concat(old_buf.take(k - 1), old_buf.skip(k as int));
                lemma_utf8_concat(old_buf.take(k - 1), seq![old_buf[k - 1]]);
            }
            self.cursor = prev;
        }
    }

    /// Delete character at cursor (delete key).
    pub fn delete(&mut self)
        requires
            old(self).wf(),
        ensures
            final(self).wf(),
            final(self).cursor == old(self).cursor,
            final(self).visible == old(self).visible,
            final(self).buffer@ == if old(self).cursor_index() < old(self).buffer@.len() {
                old(self).buffer@.remove(old(self).cursor_index())
            } else {
                old(self).buffer@
            },
            final(self).cursor_index() == old(self).cursor_index(),
    {
        let ghost old_buf = self.buffer@;
        let ghost k = char_index_at(old_buf, self.cursor as int);
        proof {
            lemma_char_index_at(old_buf, k);
            lemma_take_all(old_buf);
            if k < old_buf.len() {
                crate::text::lemma_utf8_take_strict(old_buf, k, old_buf.len() as int);
            }
        }
        if self.cursor < self.buffer.as_str().len() {
            proof {
                if k == old_buf.len() {
                    assert(false);
                }
            }
            string_remove(&mut self.buffer, self.cursor);
            proof {
                let nb = self.buffer@;
                assert(nb.take(k) =~= old_buf.take(k));
                lemma_char_index_at(nb, k);
                assert(old_buf =~= old_buf.take(k) + seq![old_buf[k]] + old_buf.skip(k + 1));
                assert(nb =~= old_buf.take(k) + old_buf.skip(k + 1));
                lemma_utf8_concat(old_buf.take(k) + seq![old_buf[k]], old_buf.skip(k + 1));
                lemma_utf8_concat(old_buf.take(k), old_buf.skip(k + 1));
                lemma_utf8_concat(old_buf.take(k), seq![old_buf[k]]);
            }
        }
    }

    /// Move cursor left.
    pub fn move_left(&mut self)
        requires
            old(self).wf(),
        ensures
            final(self).wf(),
            final(self).buffer@ == old(self).buffer@,
            final(self).visible == old(self).visible,
            final(self).cursor_index() == if old(self).cursor > 0 {
                old(self).cursor_index() - 1
            } else {
                old(self).cursor_index()
            },
    {
        let ghost old_buf = self.buffer@;
        proof {
            lemma_char_index_at(old_buf, char_index_at(old_buf, self.cursor as int));
        }
        if self.cursor > 0 {
            let chars = chars_of(self.buffer.as_str());
            let k = Self::char_index(&chars, self.cursor);
            proof {
                if k == 0 {
                    assert(old_buf.take(0) =~= Seq::<char>::empty());
                    assert(utf8_len(Seq::<char>::empty()) == 0);
                }
                lemma_utf8_take_step(old_buf, k - 1);
                lemma_char_index_at(old_buf, k - 1);
            }
            self.cursor = self.cursor - char_len_utf8(chars[k - 1]);
        }
    }

    /// Move cursor right.
    pub fn move_right(&mut self)
        requires
            old(self).wf(),
        ensures
            final(self).wf(),
            final(self).buffer@ == old(self).buffer@,
            final(self).visible == old(self).visible,
            final(self).cursor_index() == if old(self).cursor_index() < old(self).buffer@.len() {
                old(self).cursor_index() + 1
            } else {
                old(self).cursor_index()
            },
    {
        let ghost old_buf = self.buffer@;
        let ghost k0 = char_index_at(old_buf, self.cursor as int);
        proof {
            lemma_char_index_at(old_buf, k0);
            lemma_take_all(old_buf);
            if k0 < old_buf.len() {
                crate::text::lemma_utf8_take_strict(old_buf, k0, old_buf.len() as int);
            }
        }
        if self.cursor < self.buffer.as_str().len() {
            let chars = chars_of(self.buffer.as_str());
            let k = Self::char_index(&chars, self.cursor);
            proof {
                if k == old_buf.len() {
                    assert(false);
                }
                lemma_utf8_take_step(old_buf, k as int);
                lemma_char_index_at(old_buf, k + 1);
                if k + 1 < old_buf.len() {
                    crate::text::lemma_utf8_take_strict(old_buf, k + 1, old_buf.len() as int);
                }
            }
            self.cursor = self.cursor + char_len_utf8(chars[k]);
        }
    }

    /// Move cursor to start.
    pub fn move_home(&mut self)
        requires
            old(self).wf(),
        ensures
            final(self).wf(),
            final(self).buffer@ == old(self).buffer@,
            final(self).visible == old(self).visible,
            final(self).cursor == 0,
            final(self).cursor_index() == 0,
    {
        self.cursor = 0;
        proof {
            lemma_char_index_at(self.buffer@, 0);
            assert(self.buffer@.take(0) =~= Seq::<char>::empty());
            assert(utf8_len(Seq::<char>::empty()) == 0);
        }
    }

    /// Move cursor to end.
    pub fn move_end(&mut self)
        requires
            old(self).wf(),
        ensures
            final(self).wf(),
            final(self).buffer@ == old(self).buffer@,
            final(self).visible == old(self).visible,
            final(self).cursor == utf8_len(old(self).buffer@),
            final(self).cursor_index() == old(self).buffer@.len(),
    {
        self.cursor = self.buffer.as_str().len();
        proof {
            lemma_take_all(self.buffer@);
            lemma_char_index_at(self.buffer@, self.buffer@.len() as int);
        }
    }

    /// Clear the buffer and reset state.
    pub fn clear(&mut self)
        ensures
            final(self).wf(),
            final(self).buffer@ == Seq::<char>::empty(),
            final(self).cursor == 0,
            !final(self).visible,
    {
        string_clear(&mut self.buffer);
        self.cursor = 0;
        self.visible = false;
        proof {
            lemma_char_index_at(self.buffer@, 0);
            assert(self.buffer@.take(0) =~= Seq::<char>::empty());
            assert(utf8_len(Seq::<char>::empty()) == 0);
        }
    }

    /// Take the buffer contents, clearing the state.
    pub fn take(&mut self) -> (r: String)
        ensures
            r@ == old(self).buffer@,
            final(self).wf(),
            final(self).buffer@ == Seq::<char>::empty(),
            final(self).cursor == 0,
            !final(self).visible,
    {
        let mut s = String::new();
        std::mem::swap(&mut s, &mut self.buffer);
        self.cursor = 0;
        self.visible = false;
        proof {
            lemma_char_index_at(self.buffer@, 0);
            assert(self.buffer@.take(0) =~= Seq::<char>::empty());
            assert(utf8_len(Seq::<char>::empty()) == 0);
        }
        s
    }

    /// Check if buffer is empty.
    pub fn is_empty(&self) -> (r: bool)
        ensures
            r == (self.buffer@.len() == 0),
    {
        self.buffer.as_str().is_empty()
    }
}

/// When the shadow prompt is used, as configured.
#[derive(Clone, Copy, Debug, PartialEq, Eq, Structural)]
pub enum ShadowPromptMode {
    /// Never.
    Off,
    /// Whenever a command is running.
    Always,
    /// While a command is running, once something was typed into it.
    OnTyping,
}

impl ShadowPromptMode {
    /// The shadow prompt is not switched off.
    pub fn is_on(self) -> (r: bool)
        ensures
            r == (self != ShadowPromptMode::Off),
    {
        !matches!(self, ShadowPromptMode::Off)
    }
}

/// Whether the focused pane's shadow prompt is drawn: never in a
/// full-screen program or when the pane has it disabled; otherwise while a
/// command runs, and in `OnTyping` mode only once it holds typed text.
pub fn shadow_prompt_shown(
    mode: ShadowPromptMode,
    enabled: bool,
    alt_screen: bool,
    command_running: bool,
    prompt_visible: bool,
) -> (r: bool)
    ensures
        r == (enabled && !alt_screen && match mode {
            ShadowPromptMode::Off => false,
            ShadowPromptMode::Always => command_running,
            ShadowPromptMode::OnTyping => command_running && prompt_visible,
        }),
{
    if !enabled || alt_screen {
        return false;
    }
    match mode {
        ShadowPromptMode::Off => false,
        ShadowPromptMode::Always => command_running,
        ShadowPromptMode::OnTyping => command_running && prompt_visible,
    }
}

/// Toggles the focused pane's shadow prompt and returns the message to
/// show. When shadow prompts are off in the configuration nothing changes;
/// turning the prompt off discards what was typed into it.
pub fn toggle_shadow_prompt(mode_on: bool, enabled: &mut bool, prompt: &mut ShadowPrompt) -> (r: &'static str)
    requires
        old(prompt).wf(),
    ensures
        final(prompt).wf(),
        !mode_on ==> r@ == "Shadow prompt is disabled in config"@ && *final(enabled) == *old(enabled)
            && *final(prompt) == *old(prompt),
        mode_on ==> *final(enabled) == !*old(enabled),
        mode_on && *final(enabled) ==> r@ == "Shadow prompt: ON"@ && *final(prompt) == *old(prompt),
        mode_on && !*final(enabled) ==> r@ == "Shadow prompt: OFF"@ && final(prompt).buffer@.len() == 0
            && final(prompt).cursor == 0 && !final(prompt).visible,
{
    if !mode_on {
        return "Shadow prompt is disabled in config";
    }
    *enabled = !*enabled;
    if !*enabled {
        prompt.clear();
        "Shadow prompt: OFF"
    } else {
        "Shadow prompt: ON"
    }
}

/// Backspace right after typing a character gives back the buffer and the
/// cursor as they were before the character was typed.
pub proof fn lemma_backspace_undoes_insert(p: ShadowPrompt, q: ShadowPrompt, r: ShadowPrompt, ch: char)
    requires
        p.wf(),
        q.buffer@ == p.buffer@.insert(p.cursor_index(), ch),
        q.cursor == p.cursor + char_width(ch),
        q.cursor_index() == p.cursor_index() + 1,
        q.cursor > 0 ==> {
            let k = q.cursor_index();
            &&& r.buffer@ == q.buffer@.remove(k - 1)
            &&& r.cursor == q.cursor - char_width(q.buffer@[k - 1])
        },
    ensures
        r.buffer@ == p.buffer@,
        r.cursor == p.cursor,
        r.cursor_index() == p.cursor_index(),
{
    let k = p.cursor_index();
    let b = p.cursor as int;
    let w = choose|j: int| 0 <= j <= p.buffer@.len() && utf8_len(p.buffer@.take(j)) == b;
    lemma_char_index_at(p.buffer@, w);
    crate::text::lemma_scalar_width(ch);
    assert(0 <= k <= p.buffer@.len());
    assert(q.buffer@[k] == ch);
    assert(r.buffer@ =~= p.buffer@);
}

/// Text typed into an empty prompt is exactly what `take` hands back, and
/// `take` leaves the prompt empty, hidden and with the cursor at the start,
/// as `new` makes it.
pub proof fn lemma_take_returns_typed_text(
    p: ShadowPrompt,
    q: ShadowPrompt,
    r: ShadowPrompt,
    s: Seq<char>,
    out: Seq<char>,
)
    requires
        p.wf(),
        p.buffer@.len() == 0,
        q.buffer@ == p.buffer@.take(p.cursor_index()) + s + p.buffer@.skip(p.cursor_index()),
        out == q.buffer@,
        r.buffer@ == Seq::<char>::empty(),
        r.cursor == 0,
        !r.visible,
    ensures
        out == s,
        r.buffer@ == p.buffer@,
        r.cursor == p.cursor,
        r.wf(),
{
    lemma_char_index_at(p.buffer@, 0);
    assert(p.buffer@.take(0) =~= p.buffer@);
    assert(utf8_len(p.buffer@) == 0);
    assert(0 <= p.cursor_index() <= p.buffer@.len());
    assert(p.buffer@.take(p.cursor_index()) =~= Seq::<char>::empty());
    assert(p.buffer@.skip(p.cursor_index()) =~= Seq::<char>::empty());
    assert(q.buffer@ =~= s);
    lemma_char_index_at(r.buffer@, 0);
    assert(r.buffer@.take(0) =~= r.buffer@);
}

} // verus!
