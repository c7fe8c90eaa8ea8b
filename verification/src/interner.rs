use vstd::prelude::*;
use crate::grammar::bytes_equal;
use crate::strings::views;

verus! {

/// A handle to an interned byte string.
#[derive(Clone, Copy, Debug, PartialEq, Eq, Hash, Structural)]
pub struct Symbol(pub usize);

/// A table of distinct interned byte strings, addressed by `Symbol`.
pub struct Interner {
    strings: Vec<Vec<u8>>,
}

impl View for Interner {
    type V = Seq<Seq<u8>>;

    closed spec fn view(&self) -> Seq<Seq<u8>> {
        views(self.strings@)
    }
}

impl Interner {
    /// An empty interner.
    pub fn new() -> (r: Interner)
        ensures
            r@ == Seq::<Seq<u8>>::empty(),
    {
        let r = Interner { strings: Vec::new() };
        assert(r@ =~= Seq::<Seq<u8>>::empty());
        r
    }

    /// Return the symbol of `text`, adding it when it is not yet present.
    pub fn intern(&mut self, text: &[u8]) -> (sym: Symbol)
        ensures
            old(self)@.is_prefix_of(final(self)@),
            sym.0 < final(self)@.len(),
            final(self)@[sym.0 as int] == text@,
            old(self)@.contains(text@) ==> final(self)@ == old(self)@,
            !old(self)@.contains(text@) ==> final(self)@ == old(self)@.push(text@),
    {
        let mut i: usize = 0;
        while i < self.strings.len()
            invariant
                0 <= i <= self.strings.len(),
                self@ == old(self)@,
                forall|j: int| 0 <= j < i ==> self@[j] != text@,
            decreases self.strings.len() - i,
        {
            if bytes_equal(self.strings[i].as_slice(), text) {
                assert(self@[i as int] == text@);
                return Symbol(i);
            }
            i = i + 1;
        }
        let mut v: Vec<u8> = Vec::new();
        let mut k: usize = 0;
        while k < text.len()
            invariant
                0 <= k <= text.len(),
                v@ == text@.subrange(0, k as int),
            decreases text.len() - k,
        {
            v.push(text[k]);
            k = k + 1;
            assert(v@ =~= text@.subrange(0, k as int));
        }
        assert(v@ =~= text@);
        let ghost before = self@;
        let id = self.strings.len();
        self.strings.push(v);
        assert(self@ =~= before.push(text@));
        assert(!before.contains(text@)) by {
            if before.contains(text@) {
                let j = choose|j: int| 0 <= j < before.len() && before[j] == text@;
                assert(self@[j] != text@);
            }
        }
        Symbol(id)
    }

    /// Return the bytes of an interned symbol.
    pub fn lookup(&self, sym: Symbol) -> (r: Option<&[u8]>)
        ensures
            sym.0 < self@.len() ==> (r matches Some(b) && b@ == self@[sym.0 as int]),
            sym.0 >= self@.len() ==> r is None,
    {
        if sym.0 < self.strings.len() {
            Some(self.strings[sym.0].as_slice())
        } else {
            None
        }
    }

    /// The number of distinct interned strings.
    pub fn len(&self) -> (n: usize)
        ensures
            n == self@.len(),
    {
        self.strings.len()
    }
}

} // verus!
