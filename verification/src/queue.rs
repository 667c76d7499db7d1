//! The ordered, mutable command queue: filters with enabled flags,
//! editable by position, and executable over an image. Execution applies
//! every enabled command in order and is non-destructive: the queue can
//! be reused for repeated renders.

use vstd::prelude::*;
use crate::error::ErrorKind;
use crate::filter::ImageFilter;
use crate::raster::Image;
use vstd::pervasive::VecAdditionalExecFns;

verus! {

/// One queue entry: a filter and whether it takes part in execution.
/// A disabled command is skipped entirely during a render but stays
/// visible and editable in the queue.
#[derive(Clone, Copy, PartialEq, Eq, Structural, Debug)]
pub struct FilterCommand {
    pub enabled: bool,
    pub filter: ImageFilter,
}

impl FilterCommand {
    pub open spec fn valid(self) -> bool {
        self.filter.valid()
    }

    pub fn new(filter: ImageFilter) -> (r: Self)
        ensures
            r == (FilterCommand { enabled: true, filter }),
    {
        FilterCommand { enabled: true, filter }
    }

    /// Apply the command's filter if it is enabled; hand the image back
    /// unchanged if not.
    pub fn execute(self, img: Image) -> (r: Result<Image, ErrorKind>)
        requires
            self.valid(),
            img.wf(),
        ensures
            match r {
                Ok(o) => if self.enabled {
                    self.filter.apply_ok(img, o)
                } else {
                    o == img
                },
                Err(e) => self.enabled && e == ErrorKind::FilterError && self.filter.apply_fails(
                    img,
                ),
            },
    {
        if self.enabled {
            self.filter.apply(img)
        } else {
            Ok(img)
        }
    }
}

/// All commands in a sequence have parameters in range.
pub open spec fn valid_cmds(s: Seq<FilterCommand>) -> bool {
    forall|i: int| 0 <= i < s.len() ==> (#[trigger] s[i]).valid()
}

/// No enabled command in the sequence is a JPEG compression — the one
/// filter whose application can fail.
pub open spec fn no_enabled_jpeg(s: Seq<FilterCommand>) -> bool {
    forall|i: int| 0 <= i < s.len() ==> !((#[trigger] s[i]).enabled && s[i].filter is JpegCompression)
}

/// What executing the commands in order over `img` can yield. `out` is
/// `None` exactly when some enabled command failed; otherwise it is the
/// image after every enabled command was applied in order. The only
/// freedom left is the fresh seed of an unseeded noise command.
pub open spec fn exec_rel(cmds: Seq<FilterCommand>, img: Image, out: Option<Image>) -> bool
    decreases cmds.len(),
{
    if cmds.len() == 0 {
        out == Some(img)
    } else {
        let c = cmds[0];
        if !c.enabled {
            exec_rel(cmds.drop_first(), img, out)
        } else if c.filter.apply_fails(img) {
            out is None
        } else {
            exists|mid: Image| (#[trigger] c.filter.apply_ok(img, mid)) && exec_rel(
                cmds.drop_first(),
                mid,
                out,
            )
        }
    }
}

/// A queue whose commands are all disabled leaves any image untouched.
pub proof fn lemma_execute_all_disabled(cmds: Seq<FilterCommand>, img: Image, out: Option<Image>)
    requires
        forall|i: int| 0 <= i < cmds.len() ==> !(#[trigger] cmds[i]).enabled,
        exec_rel(cmds, img, out),
    ensures
        out == Some(img),
    decreases cmds.len(),
{
    if cmds.len() > 0 {
        assert(!cmds[0].enabled);
        lemma_execute_all_disabled(cmds.drop_first(), img, out);
    }
}

/// Exchanging two positions of a sequence.
pub open spec fn swapped(s: Seq<FilterCommand>, i: int, j: int) -> Seq<FilterCommand> {
    s.update(i, s[j]).update(j, s[i])
}

/// Swapping the same two valid positions twice restores the original
/// order.
pub proof fn lemma_swap_involutive(s: Seq<FilterCommand>, i: int, j: int)
    requires
        0 <= i < s.len(),
        0 <= j < s.len(),
    ensures
        swapped(swapped(s, i, j), i, j) == s,
{
    assert(swapped(swapped(s, i, j), i, j) =~= s);
}

/// The ordered list of commands; insertion order is execution order.
#[derive(Debug)]
pub struct CommandQueue {
    pub queue: Vec<FilterCommand>,
}

impl View for CommandQueue {
    type V = Seq<FilterCommand>;

    open spec fn view(&self) -> Seq<FilterCommand> {
        self.queue@
    }
}

impl Clone for CommandQueue {
    fn clone(&self) -> (r: Self)
        ensures
            r@ == self@,
    {
        let queue = self.queue.clone();
        assert(queue@ =~= self.queue@);
        CommandQueue { queue }
    }
}

impl Default for CommandQueue {
    fn default() -> (r: Self)
        ensures
            r@ == Seq::<FilterCommand>::empty(),
    {
        CommandQueue { queue: Vec::new() }
    }
}

impl CommandQueue {
    /// Every stored command has parameters in range.
    pub open spec fn wf(self) -> bool {
        valid_cmds(self@)
    }

    pub fn new() -> (r: Self)
        ensures
            r@ == Seq::<FilterCommand>::empty(),
            r.wf(),
    {
        CommandQueue { queue: Vec::new() }
    }

    pub fn len(&self) -> (r: usize)
        ensures
            r == self@.len(),
    {
        self.queue.len()
    }

    pub fn is_empty(&self) -> (r: bool)
        ensures
            r == (self@.len() == 0),
    {
        self.queue.len() == 0
    }

    /// Hand the commands over for consumption, in queue order.
    pub fn into_iter(self) -> (r: std::vec::IntoIter<FilterCommand>)
        ensures
            vstd::std_specs::vec::into_iter_elts(r) == self@,
    {
        self.queue.into_iter()
    }

    /// Read the command at `index`.
    pub fn get(&self, index: usize) -> (r: Option<FilterCommand>)
        ensures
            index < self@.len() ==> r == Some(self@[index as int]),
            index >= self@.len() ==> r is None,
    {
        if index < self.queue.len() {
            Some(self.queue[index])
        } else {
            None
        }
    }

    /// Append a filter at the end, enabled.
    pub fn add(&mut self, filter: ImageFilter)
        requires
            filter.valid(),
        ensures
            final(self)@ == old(self)@.push(FilterCommand { enabled: true, filter }),
            old(self).wf() ==> final(self).wf(),
    {
        self.queue.push(FilterCommand { enabled: true, filter });
    }

    /// Remove the command at `index`, shifting later commands down.
    /// Fails with `IndexError` on an out-of-range index and leaves the
    /// queue unchanged.
    pub fn remove(&mut self, index: usize) -> (r: Result<(), ErrorKind>)
        ensures
            index < old(self)@.len() ==> r is Ok && final(self)@ == old(self)@.remove(index as int),
            index >= old(self)@.len() ==> r == Err::<(), ErrorKind>(ErrorKind::IndexError)
                && final(self)@ == old(self)@,
            old(self).wf() ==> final(self).wf(),
    {
        if index < self.queue.len() {
            self.queue.remove(index);
            Ok(())
        } else {
            Err(ErrorKind::IndexError)
        }
    }

    /// Exchange the commands at `i` and `j`. Equal indices are a no-op;
    /// an out-of-range index fails with `IndexError` and leaves the
    /// queue unchanged.
    pub fn swap(&mut self, i: usize, j: usize) -> (r: Result<(), ErrorKind>)
        ensures
            i == j ==> r is Ok && final(self)@ == old(self)@,
            i != j && i < old(self)@.len() && j < old(self)@.len() ==> r is Ok && final(self)@
                == swapped(old(self)@, i as int, j as int),
            i != j && (i >= old(self)@.len() || j >= old(self)@.len()) ==> r == Err::<(), ErrorKind>(
                ErrorKind::IndexError,
            ) && final(self)@ == old(self)@,
            old(self).wf() ==> final(self).wf(),
    {
        if i == j {
            return Ok(());
        }
        if i < self.queue.len() && j < self.queue.len() {
            let a = self.queue[i];
            let b = self.queue[j];
            self.queue.set(i, b);
            self.queue.set(j, a);
            Ok(())
        } else {
            Err(ErrorKind::IndexError)
        }
    }

    /// Set the enabled flag of the command at `index` without altering
    /// the order. Fails with `IndexError` on an out-of-range index.
    pub fn toggle(&mut self, index: usize, enabled: bool) -> (r: Result<(), ErrorKind>)
        ensures
            index < old(self)@.len() ==> r is Ok && final(self)@ == old(self)@.update(
                index as int,
                FilterCommand { enabled, filter: old(self)@[index as int].filter },
            ),
            index >= old(self)@.len() ==> r == Err::<(), ErrorKind>(ErrorKind::IndexError)
                && final(self)@ == old(self)@,
            old(self).wf() ==> final(self).wf(),
    {
        if index < self.queue.len() {
            let filter = self.queue[index].filter;
            self.queue.set(index, FilterCommand { enabled, filter });
            Ok(())
        } else {
            Err(ErrorKind::IndexError)
        }
    }

    /// Apply every enabled command in order, skipping disabled ones, and
    /// hand back the final image. The queue itself is untouched and can
    /// be reused. Fails with `FilterError` exactly when an enabled
    /// command fails, which only JPEG compression can.
    pub fn execute(&self, img: Image) -> (r: Result<Image, ErrorKind>)
        requires
            self.wf(),
            img.wf(),
        ensures
            match r {
                Ok(o) => o.wf() && exec_rel(self@, img, Some(o)),
                Err(e) => e == ErrorKind::FilterError && exec_rel(self@, img, None),
            },
            no_enabled_jpeg(self@) ==> r is Ok,
    {
        let ghost cmds = self@;
        let n = self.queue.len();
        let mut cur = img;
        let mut i: usize = 0;
        proof {
            assert(cmds.skip(0) =~= cmds);
        }
        while i < n
            invariant
                self.wf(),
                cur.wf(),
                cmds == self@,
                n == cmds.len(),
                i <= n,
                forall|out: Option<Image>| exec_rel(cmds.skip(i as int), cur, out) ==> exec_rel(
                    cmds,
                    img,
                    out,
                ),
            decreases n - i,
        {
            let c = self.queue[i];
            proof {
                assert(cmds.skip(i as int)[0] == cmds[i as int]);
                assert(cmds.skip(i as int).drop_first() =~= cmds.skip(i as int + 1));
            }
            match c.execute(cur) {
                Ok(o) => {
                    proof {
                        assert forall|out: Option<Image>|
                            exec_rel(cmds.skip(i as int + 1), o, out) implies exec_rel(
                            cmds,
                            img,
                            out,
                        ) by {
                            if c.enabled {
                                assert(c.filter.apply_ok(cur, o));
                                assert(exec_rel(cmds.skip(i as int), cur, out));
                            } else {
                                assert(o == cur);
                                assert(exec_rel(cmds.skip(i as int), cur, out));
                            }
                        }
                    }
                    cur = o;
                },
                Err(e) => {
                    proof {
                        assert(c.enabled && c.filter.apply_fails(cur));
                        assert(exec_rel(cmds.skip(i as int), cur, None));
                        assert(!no_enabled_jpeg(cmds));
                    }
                    return Err(e);
                },
            }
            i += 1;
        }
        proof {
            assert(cmds.skip(n as int) =~= Seq::<FilterCommand>::empty());
            assert(exec_rel(cmds.skip(n as int), cur, Some(cur)));
        }
        Ok(cur)
    }
}

} // verus!
