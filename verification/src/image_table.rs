//! The image table: a keyed lookup from an opaque image identifier to a
//! texture description.  Absent keys are tolerated by every consumer.

use vstd::prelude::*;

verus! {

/// A GPU texture as the renderer sees it: an opaque handle token chosen by
/// the caller, plus pixel dimensions.
#[derive(Clone, Copy, PartialEq, Eq, Structural, Debug)]
pub struct Texture {
    /// Opaque handle token; the renderer never interprets it.
    pub texture: u32,
    /// Width in pixels.
    pub width: u32,
    /// Height in pixels.
    pub height: u32,
}

/// A table mapping image identifiers to textures, with unique identifiers
/// and nonzero dimensions.
pub struct ImageMap {
    entries: Vec<(u64, Texture)>,
}

/// First-match lookup in a sequence of keyed entries.
pub open spec fn find_tex(s: Seq<(u64, Texture)>, id: u64) -> Option<Texture>
    decreases s.len(),
{
    if s.len() == 0 {
        None
    } else if s[0].0 == id {
        Some(s[0].1)
    } else {
        find_tex(s.skip(1), id)
    }
}

impl ImageMap {
    /// The table as a sequence of entries.
    pub closed spec fn entries_seq(&self) -> Seq<(u64, Texture)> {
        self.entries@
    }

    /// The texture stored under an identifier, if any.
    pub open spec fn spec_get(&self, id: u64) -> Option<Texture> {
        find_tex(self.entries_seq(), id)
    }

    /// Identifiers are unique and every stored texture has nonzero
    /// dimensions.
    pub open spec fn wf(&self) -> bool {
        &&& (forall|i: int, j: int|
            0 <= i < j < self.entries_seq().len() ==> (#[trigger] self.entries_seq()[i]).0
                != (#[trigger] self.entries_seq()[j]).0)
        &&& (forall|i: int|
            0 <= i < self.entries_seq().len() ==> (#[trigger] self.entries_seq()[i]).1.width
                >= 1 && self.entries_seq()[i].1.height >= 1)
    }

    /// Builds an empty table.
    pub fn new() -> (r: ImageMap)
        ensures
            r.wf(),
            forall|id: u64| r.spec_get(id) is None,
    {
        let r = ImageMap { entries: Vec::new() };
        proof {
            assert(forall|id: u64| find_tex(r.entries@, id) is None);
        }
        r
    }

    /// Adds a texture under a fresh identifier.
    pub fn insert(&mut self, id: u64, tex: Texture)
        requires
            old(self).wf(),
            old(self).spec_get(id) is None,
            tex.width >= 1,
            tex.height >= 1,
        ensures
            final(self).wf(),
            final(self).spec_get(id) == Some(tex),
            forall|other: u64| other != id ==> final(self).spec_get(other)
                == old(self).spec_get(other),
    {
        proof {
            lemma_find_tex_char(self.entries@, id);
        }
        self.entries.push((id, tex));
        proof {
            lemma_find_tex_push(old(self).entries@, id, tex);
        }
    }

    /// Looks an identifier up.
    pub fn get(&self, id: u64) -> (r: Option<Texture>)
        requires
            self.wf(),
        ensures
            r == self.spec_get(id),
            r is Some ==> r.unwrap().width >= 1 && r.unwrap().height >= 1,
    {
        let mut i: usize = 0;
        let n = self.entries.len();
        proof {
            assert(self.entries@.skip(0) =~= self.entries@);
        }
        while i < n
            invariant
                0 <= i <= n,
                n == self.entries@.len(),
                self.wf(),
                find_tex(self.entries@, id) == find_tex(self.entries@.skip(i as int), id),
            decreases n - i,
        {
            proof {
                assert(self.entries@.skip(i as int)[0] == self.entries@[i as int]);
                assert(self.entries@.skip(i as int).skip(1)
                    =~= self.entries@.skip(i as int + 1));
            }
            let (k, t) = self.entries[i];
            if k == id {
                return Some(t);
            }
            i += 1;
        }
        proof {
            assert(self.entries@.skip(n as int).len() == 0);
        }
        None
    }
}

/// Pushing a fresh entry leaves every other lookup unchanged and makes the
/// new one found.
proof fn lemma_find_tex_push(s: Seq<(u64, Texture)>, id: u64, tex: Texture)
    ensures
        forall|other: u64| other != id ==> #[trigger] find_tex(s.push((id, tex)), other)
            == find_tex(s, other),
        find_tex(s, id) is None ==> find_tex(s.push((id, tex)), id) == Some(tex),
    decreases s.len(),
{
    let p = s.push((id, tex));
    if s.len() == 0 {
        assert(p[0] == (id, tex));
        assert(p.skip(1) =~= s);
        assert(forall|other: u64| other != id ==> #[trigger] find_tex(p, other)
            == find_tex(s, other));
        assert(find_tex(p, id) == Some(tex));
    } else {
        lemma_find_tex_push(s.skip(1), id, tex);
        assert(p.skip(1) =~= s.skip(1).push((id, tex)));
        assert(p[0] == s[0]);
        assert forall|other: u64| other != id implies #[trigger] find_tex(p, other)
            == find_tex(s, other) by {
            if s[0].0 != other {
                assert(find_tex(p, other) == find_tex(s.skip(1).push((id, tex)), other));
                assert(find_tex(s, other) == find_tex(s.skip(1), other));
            }
        }
        if find_tex(s, id) is None {
            assert(s[0].0 != id);
            assert(find_tex(p, id) == find_tex(s.skip(1).push((id, tex)), id));
            assert(find_tex(p, id) == Some(tex));
        }
    }
}

/// A found entry occurs in the sequence; nothing more is needed here, the
/// lemma keeps `insert`'s freshness requirement usable.
proof fn lemma_find_tex_char(s: Seq<(u64, Texture)>, id: u64)
    ensures
        find_tex(s, id) is None ==> forall|i: int|
            0 <= i < s.len() ==> (#[trigger] s[i]).0 != id,
    decreases s.len(),
{
    if s.len() > 0 {
        lemma_find_tex_char(s.skip(1), id);
        if find_tex(s, id) is None {
            assert forall|i: int| 0 <= i < s.len() implies (#[trigger] s[i]).0 != id by {
                if i > 0 {
                    assert(s.skip(1)[i - 1] == s[i]);
                }
            }
        }
    }
}

} // verus!
