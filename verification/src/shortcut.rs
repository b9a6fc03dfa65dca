use vstd::prelude::*;

use crate::text::{from_utf16_lossy, spec_utf16_lossy};

verus! {

/// What a `.lnk` shortcut points at.
pub struct ResolvedShortcut {
    pub target: String,
    pub arguments: String,
    pub working_dir: String,
    pub icon: Option<String>,
}

/// The units of `buf` before its first NUL (all of them when there is none).
pub open spec fn before_nul(buf: Seq<u16>) -> Seq<u16>
    decreases buf.len(),
{
    if buf.len() == 0 {
        buf
    } else if buf[0] == 0 {
        Seq::empty()
    } else {
        seq![buf[0]] + before_nul(buf.drop_first())
    }
}

proof fn lemma_before_nul(buf: Seq<u16>, i: int)
    requires
        0 <= i <= buf.len(),
        forall|j: int| 0 <= j < i ==> buf[j] != 0,
        i == buf.len() || buf[i] == 0,
    ensures
        before_nul(buf) == buf.take(i),
    decreases i,
{
    if i == 0 {
        assert(buf.take(0) =~= Seq::<u16>::empty());
    } else {
        lemma_before_nul(buf.drop_first(), i - 1);
        assert(seq![buf[0]] + buf.drop_first().take(i - 1) =~= buf.take(i));
    }
}

/// The text of a NUL-terminated UTF-16 buffer, unpaired surrogates replaced.
pub fn wide_to_string(buf: &[u16]) -> (r: String)
    ensures
        r@ == spec_utf16_lossy(before_nul(buf@)),
{
    let mut len: usize = 0;
    while len < buf.len() && buf[len] != 0
        invariant
            len <= buf@.len(),
            forall|j: int| 0 <= j < len ==> buf@[j] != 0,
        decreases buf.len() - len,
    {
        len += 1;
    }
    proof {
        lemma_before_nul(buf@, len as int);
    }
    let (head, _rest) = buf.split_at(len);
    assert(head@ =~= buf@.take(len as int));
    from_utf16_lossy(head)
}

/// The shortcut read from the buffers the shell link filled: its target,
/// arguments, working directory and icon location (none when empty).
pub fn shortcut_from_buffers(target: &[u16], arguments: &[u16], working_dir: &[u16], icon: &[u16]) -> (r: ResolvedShortcut)
    ensures
        r.target@ == spec_utf16_lossy(before_nul(target@)),
        r.arguments@ == spec_utf16_lossy(before_nul(arguments@)),
        r.working_dir@ == spec_utf16_lossy(before_nul(working_dir@)),
        match r.icon {
            None => spec_utf16_lossy(before_nul(icon@)).len() == 0,
            Some(i) => i@ == spec_utf16_lossy(before_nul(icon@)) && i@.len() > 0,
        },
{
    let icon_str = wide_to_string(icon);
    let icon = if icon_str.as_str().is_empty() {
        None
    } else {
        Some(icon_str)
    };
    ResolvedShortcut {
        target: wide_to_string(target),
        arguments: wide_to_string(arguments),
        working_dir: wide_to_string(working_dir),
        icon,
    }
}

} // verus!
