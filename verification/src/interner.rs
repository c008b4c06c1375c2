//! Interned strings: a `Sym` names a string held by an `Interner`.

use vstd::prelude::*;

verus! {

/// An interned string symbol, named by its index in an `Interner` (counted from one).
#[derive(Clone, Copy, Debug, PartialEq, Eq, Structural)]
pub struct Sym {
    pub index: usize,
}

impl View for Sym {
    type V = usize;

    open spec fn view(&self) -> usize {
        self.index
    }
}

impl Sym {
    /// Creates a symbol from its index; there is no symbol with index zero.
    pub fn new(index: usize) -> (r: Option<Sym>)
        ensures
            index == 0 ==> r.is_none(),
            index != 0 ==> r == Some(Sym { index }),
    {
        if index == 0 {
            None
        } else {
            Some(Sym { index })
        }
    }

    /// The symbol of the empty string.
    pub fn empty_string() -> (r: Sym)
        ensures
            r@ == 1,
    {
        Sym { index: 1 }
    }

    /// The symbol of `arguments`.
    pub fn arguments() -> (r: Sym)
        ensures
            r@ == 2,
    {
        Sym { index: 2 }
    }

    /// The index of this symbol.
    pub fn get(self) -> (r: usize)
        ensures
            r == self@,
    {
        self.index
    }
}

/// The strings that every interner holds from the start, in order: the empty
/// string and `arguments`.
pub open spec fn common_strings() -> Seq<Seq<char>> {
    seq![Seq::<char>::empty(), seq!['a', 'r', 'g', 'u', 'm', 'e', 'n', 't', 's']]
}

/// Whether interning `string` into the strings `before` gives the strings
/// `after` and the symbol `sym`: the first symbol that names the string, or a
/// new symbol for it after all others.
pub open spec fn interned(
    before: Seq<Seq<char>>,
    after: Seq<Seq<char>>,
    string: Seq<char>,
    sym: Sym,
) -> bool {
    if before.contains(string) {
        &&& after == before
        &&& 1 <= sym@ <= before.len()
        &&& before[sym@ - 1] == string
        &&& forall|j: int| 0 <= j < sym@ - 1 ==> before[j] != string
    } else {
        &&& after == before.push(string)
        &&& sym@ == after.len()
    }
}

/// A table of strings; the symbol with index `i` names the `i`-th string
/// (counted from one).
pub struct Interner {
    pub strings: Vec<String>,
}

impl View for Interner {
    type V = Seq<Seq<char>>;

    open spec fn view(&self) -> Seq<Seq<char>> {
        self.strings@.map_values(|s: String| s@)
    }
}

impl Interner {
    /// Whether `sym` names a string of this interner.
    pub open spec fn knows(&self, sym: Sym) -> bool {
        1 <= sym@ <= self@.len()
    }

    /// The string `sym` names.
    pub open spec fn text(&self, sym: Sym) -> Seq<char> {
        self@[sym@ - 1]
    }

    /// An interner that holds the common strings.
    pub fn new() -> (r: Interner)
        ensures
            r@ == common_strings(),
    {
        let mut strings: Vec<String> = Vec::new();
        strings.push(String::new());
        strings.push(String::from_str("arguments"));
        proof {
            reveal_strlit("arguments");
            assert("arguments"@ =~= seq!['a', 'r', 'g', 'u', 'm', 'e', 'n', 't', 's']);
            assert(strings@.map_values(|s: String| s@) =~= common_strings());
        }
        Interner { strings }
    }

    /// The symbol of `string`: the first symbol that names it, or a new
    /// symbol after all others when there is none.
    pub fn get_or_intern(&mut self, string: &str) -> (r: Sym)
        requires
            old(self)@.len() < usize::MAX,
        ensures
            interned(old(self)@, final(self)@, string@, r),
    {
        let wanted = String::from_str(string);
        let n = self.strings.len();
        let mut i: usize = 0;
        while i < n
            invariant
                i <= n,
                n == self.strings.len(),
                self@ == old(self)@,
                wanted@ == string@,
                forall|j: int| 0 <= j < i ==> self@[j] != string@,
            decreases n - i,
        {
            if self.strings[i] == wanted {
                return Sym { index: i + 1 };
            }
            i = i + 1;
        }
        self.strings.push(wanted);
        proof {
            assert(self@ =~= old(self)@.push(string@));
        }
        Sym { index: n + 1 }
    }

    /// The string `sym` names, if any.
    pub fn resolve(&self, sym: Sym) -> (r: Option<&String>)
        ensures
            self.knows(sym) ==> (r matches Some(s) && s@ == self.text(sym)),
            !self.knows(sym) ==> r.is_none(),
    {
        if sym.index >= 1 && sym.index <= self.strings.len() {
            Some(&self.strings[sym.index - 1])
        } else {
            None
        }
    }

    /// The string `sym` names, which must be one of this interner's.
    pub fn resolve_expect(&self, sym: Sym) -> (r: &String)
        requires
            self.knows(sym),
        ensures
            r@ == self.text(sym),
    {
        &self.strings[sym.index - 1]
    }
}

/// Interning a string, then resolving its symbol, gives the string back,
/// and every symbol known before still names the same string.
pub proof fn law_intern_then_resolve(before: Interner, after: Interner, string: Seq<char>, sym: Sym)
    requires
        interned(before@, after@, string, sym),
    ensures
        after.knows(sym),
        after.text(sym) == string,
        forall|s: Sym| #[trigger] before.knows(s) ==> after.knows(s) && after.text(s) == before.text(s),
{
}

/// Interning the same string twice gives the same symbol and adds nothing
/// the second time.
pub proof fn law_intern_twice(
    start: Interner,
    once: Interner,
    twice: Interner,
    string: Seq<char>,
    first: Sym,
    second: Sym,
)
    requires
        interned(start@, once@, string, first),
        interned(once@, twice@, string, second),
    ensures
        second == first,
        twice@ == once@,
{
    if !start@.contains(string) {
        assert(once@[once@.len() - 1] == string);
        assert forall|j: int| 0 <= j < first@ - 1 implies once@[j] != string by {
            assert(once@[j] == start@[j]);
        }
    }
    assert(once@.contains(string)) by {
        assert(once@[first@ - 1] == string);
    }
    if second@ < first@ {
        assert(once@[second@ - 1] == string);
    }
    if second@ > first@ {
        assert(once@[first@ - 1] == string);
    }
}

} // verus!
