//! Per-viewer message panels: an append-only line buffer that coalesces
//! consecutive identical messages, plus a catalog keyed by actor handle.

use vstd::prelude::*;

verus! {

/// A viewer's message panel: an optional one-line prompt and the buffered
/// messages, each with a repeat count.
#[allow(non_camel_case_types)]
#[derive(Clone)]
pub struct msg_panel {
    pub prompt: Option<String>,
    pub messages: Vec<(String, u8)>,
}

impl msg_panel {
    pub fn new() -> (r: msg_panel)
        ensures
            r.prompt is None,
            r.messages@.len() == 0,
    {
        msg_panel { prompt: None, messages: Vec::new() }
    }

    /// The current prompt, if one is set.
    pub fn prompt(&self) -> (r: Option<String>)
        ensures
            r == self.prompt,
    {
        match &self.prompt {
            Some(s) => Some(s.clone()),
            None => None,
        }
    }

    pub fn set_prompt(&mut self, src: &str)
        ensures
            final(self).prompt matches Some(p) && p@ == src@,
            final(self).messages == old(self).messages,
    {
        self.prompt = Some(src.to_owned());
    }

    pub fn clear_prompt(&mut self)
        ensures
            final(self).prompt is None,
            final(self).messages == old(self).messages,
    {
        self.prompt = None;
    }

    /// How many distinct message lines are buffered.
    pub fn count(&self) -> (r: usize)
        ensures
            r == self.messages@.len(),
    {
        self.messages.len()
    }

    /// Appends a message line. An empty line is dropped; a line equal to
    /// the newest buffered one bumps that line's repeat counter instead of
    /// duplicating it, until the counter saturates.
    pub fn add_message(&mut self, src: &str)
        ensures
            final(self).prompt == old(self).prompt,
            src@.len() == 0 ==> final(self).messages@ == old(self).messages@,
            src@.len() > 0 ==> ({
                let msgs = old(self).messages@;
                if msgs.len() > 0 && msgs.last().0@ == src@ && msgs.last().1 < u8::MAX {
                    final(self).messages@ == msgs.update(
                        msgs.len() - 1,
                        (msgs.last().0, (msgs.last().1 + 1) as u8),
                    )
                } else {
                    final(self).messages@.len() == msgs.len() + 1
                    && final(self).messages@.drop_last() == msgs
                    && final(self).messages@.last().0@ == src@
                    && final(self).messages@.last().1 == 1
                }
            }),
    {
        if src.is_empty() {
            return;
        }
        let ub = self.messages.len();
        if 0 < ub {
            let last_text_eq = self.messages[ub - 1].0 == src.to_owned();
            let cnt = self.messages[ub - 1].1;
            if last_text_eq && cnt < u8::MAX {
                let text = self.messages[ub - 1].0.clone();
                self.messages.set(ub - 1, (text, cnt + 1));
                return;
            }
        }
        self.messages.push((src.to_owned(), 1));
    }

    /// The n-th buffered line and its repeat count, oldest first.
    pub fn message(&self, n: usize) -> (r: Option<&(String, u8)>)
        ensures
            n < self.messages@.len() ==> r == Some(&self.messages@[n as int]),
            n >= self.messages@.len() ==> r is None,
    {
        if n >= self.messages.len() {
            return None;
        }
        Some(&self.messages[n])
    }

    /// Removes and returns the newest buffered line.
    pub fn pop_message(&mut self) -> (r: Option<(String, u8)>)
        ensures
            final(self).prompt == old(self).prompt,
            old(self).messages@.len() == 0 ==> r is None && final(self).messages@
                == old(self).messages@,
            old(self).messages@.len() > 0 ==> r == Some(old(self).messages@.last())
                && final(self).messages@ == old(self).messages@.drop_last(),
    {
        self.messages.pop()
    }

    /// Drops the oldest buffered line, if any.
    pub fn unshift_message(&mut self)
        ensures
            final(self).prompt == old(self).prompt,
            old(self).messages@.len() == 0 ==> final(self).messages@ == old(self).messages@,
            old(self).messages@.len() > 0 ==> final(self).messages@ == old(self).messages@.drop_first(),
    {
        let ub = self.messages.len();
        if 0 < ub {
            self.messages.remove(0);
            proof {
                assert(self.messages@ =~= old(self).messages@.drop_first());
            }
        }
    }
}

/// Message panels per viewer, keyed by the viewer's actor handle (map
/// index, actor index). Replaces a process-wide weak-reference cache with
/// an id-keyed table.
#[allow(non_camel_case_types)]
pub struct msg_catalog {
    pub catalog: Vec<((usize, usize), msg_panel)>,
}

impl msg_catalog {
    pub fn new() -> (r: msg_catalog)
        ensures
            r.catalog@.len() == 0,
    {
        msg_catalog { catalog: Vec::new() }
    }

    /// The index of the viewer's panel: the first entry keyed by the
    /// viewer if one exists (and then the catalog is untouched), else a
    /// fresh empty panel appended for the viewer.
    pub fn get(&mut self, view: (usize, usize)) -> (i: usize)
        ensures
            i < final(self).catalog@.len(),
            final(self).catalog@[i as int].0 == view,
            forall|j: int| 0 <= j < i ==> (#[trigger] final(self).catalog@[j]).0 != view,
            (exists|j: int| 0 <= j < old(self).catalog@.len() && (#[trigger] old(
                self,
            ).catalog@[j]).0 == view) ==> final(self).catalog@ == old(self).catalog@,
            !(exists|j: int| 0 <= j < old(self).catalog@.len() && (#[trigger] old(
                self,
            ).catalog@[j]).0 == view) ==> (final(self).catalog@.drop_last() == old(self).catalog@
                && i == old(self).catalog@.len() && final(self).catalog@.last().1.messages@.len()
                == 0 && final(self).catalog@.last().1.prompt is None),
    {
        let mut i: usize = 0;
        while i < self.catalog.len()
            invariant
                0 <= i <= self.catalog@.len(),
                forall|j: int| 0 <= j < i ==> (#[trigger] self.catalog@[j]).0 != view,
            decreases self.catalog@.len() - i,
        {
            let key = self.catalog[i].0;
            if key.0 == view.0 && key.1 == view.1 {
                proof {
                    assert(self.catalog@[i as int].0 == view);
                }
                return i;
            }
            i = i + 1;
        }
        let n = self.catalog.len();
        self.catalog.push((view, msg_panel::new()));
        n
    }

    /// A shared view of the panel at a catalog index.
    pub fn panel(&self, i: usize) -> (r: &msg_panel)
        requires
            i < self.catalog@.len(),
        ensures
            *r == self.catalog@[i as int].1,
    {
        &self.catalog[i].1
    }

    /// A mutable view of the panel at a catalog index; the viewer key
    /// stays put.
    pub fn panel_mut(&mut self, i: usize) -> (r: &mut msg_panel)
        requires
            i < old(self).catalog@.len(),
        ensures
            *r == old(self).catalog@[i as int].1,
            final(self).catalog@ == old(self).catalog@.update(
                i as int,
                (old(self).catalog@[i as int].0, *final(r)),
            ),
    {
        &mut self.catalog[i].1
    }
}

} // verus!
