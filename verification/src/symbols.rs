//! The symbol table: a mapping from symbolic names to 16-bit addresses,
//! seeded with the fixed predefined set and grown by the two passes.

use vstd::prelude::*;
use vstd::string::StringExecFns;
use crate::text::str_eq;

verus! {

broadcast use vstd::string::group_string_axioms;

/// The map that a sequence of bindings denotes; a later binding for the same
/// name shadows an earlier one (the passes never add a shadowing binding:
/// `add_entry` requires an unbound name).
pub open spec fn map_of(entries: Seq<(String, u16)>) -> Map<Seq<char>, u16>
    decreases entries.len(),
{
    if entries.len() == 0 {
        Map::empty()
    } else {
        map_of(entries.drop_last()).insert(entries.last().0@, entries.last().1)
    }
}

/// The binding that a backwards scan of `entries` finds for `name`.
spec fn lookup_in(entries: Seq<(String, u16)>, name: Seq<char>) -> Option<u16>
    decreases entries.len(),
{
    if entries.len() == 0 {
        None
    } else if entries.last().0@ == name {
        Some(entries.last().1)
    } else {
        lookup_in(entries.drop_last(), name)
    }
}

/// A backwards scan finds exactly the binding that the denoted map holds.
proof fn lemma_lookup_in(entries: Seq<(String, u16)>, name: Seq<char>)
    ensures
        match lookup_in(entries, name) {
            Some(a) => map_of(entries).contains_key(name) && map_of(entries)[name] == a,
            None => !map_of(entries).contains_key(name),
        },
    decreases entries.len(),
{
    if entries.len() > 0 && entries.last().0@ != name {
        lemma_lookup_in(entries.drop_last(), name);
    }
}

/// A mapping from symbolic name to 16-bit address.  Created once per
/// translation run, seeded by `predef_symbols`, grown by the two passes, and
/// never shared across runs.
pub struct SymbolTable {
    entries: Vec<(String, u16)>,
}

impl View for SymbolTable {
    type V = Map<Seq<char>, u16>;

    closed spec fn view(&self) -> Map<Seq<char>, u16> {
        map_of(self.entries@)
    }
}

impl SymbolTable {
    /// The table with no bindings at all.
    pub fn new() -> (t: SymbolTable)
        ensures
            t@ == Map::<Seq<char>, u16>::empty(),
    {
        SymbolTable { entries: Vec::new() }
    }

    /// The address bound to `name`, if any.
    pub fn lookup(&self, name: &str) -> (r: Option<u16>)
        ensures
            match r {
                Some(a) => self@.contains_key(name@) && self@[name@] == a,
                None => !self@.contains_key(name@),
            },
    {
        let mut i: usize = self.entries.len();
        proof {
            assert(self.entries@.take(i as int) =~= self.entries@);
        }
        while i > 0
            invariant
                0 <= i <= self.entries@.len(),
                lookup_in(self.entries@, name@) == lookup_in(
                    self.entries@.take(i as int),
                    name@,
                ),
            decreases i,
        {
            i = i - 1;
            let e = &self.entries[i];
            proof {
                assert(self.entries@.take(i as int + 1).last() == self.entries@[i as int]);
                assert(self.entries@.take(i as int + 1).drop_last() =~= self.entries@.take(
                    i as int,
                ));
            }
            if str_eq(e.0.as_str(), name) {
                proof {
                    lemma_lookup_in(self.entries@, name@);
                }
                return Some(e.1);
            }
        }
        proof {
            assert(self.entries@.take(0).len() == 0);
            lemma_lookup_in(self.entries@, name@);
        }
        None
    }

    /// Whether `name` is bound, used to tell a genuinely new variable from
    /// an already-bound symbol.
    pub fn contains(&self, name: &str) -> (r: bool)
        ensures
            r == self@.contains_key(name@),
    {
        self.lookup(name).is_some()
    }

    /// The address bound to `name`; callers must know the name is bound.
    pub fn get_address(&self, name: &str) -> (a: u16)
        requires
            self@.contains_key(name@),
        ensures
            a == self@[name@],
    {
        match self.lookup(name) {
            Some(a) => a,
            None => {
                proof {
                    assert(false);
                }
                0
            },
        }
    }

    /// Insert a binding for a name that is not yet bound.
    pub fn add_entry(&mut self, name: String, address: u16)
        requires
            !old(self)@.contains_key(name@),
        ensures
            final(self)@ == old(self)@.insert(name@, address),
    {
        let ghost pre = self.entries@;
        let ghost nv = name@;
        self.entries.push((name, address));
        proof {
            assert(self.entries@.drop_last() =~= pre);
            assert(self.entries@.last().0@ == nv);
        }
    }
}

/// The fixed predefined bindings present before any source is read: the
/// stack and frame pointers, the sixteen registers, and the two memory
/// mapped devices.
pub open spec fn spec_predef() -> Map<Seq<char>, u16> {
    Map::<Seq<char>, u16>::empty().insert("SP"@, 0).insert("LCL"@, 1).insert("ARG"@, 2).insert(
        "THIS"@,
        3,
    ).insert("THAT"@, 4).insert("R0"@, 0).insert("R1"@, 1).insert("R2"@, 2).insert(
        "R3"@,
        3,
    ).insert("R4"@, 4).insert("R5"@, 5).insert("R6"@, 6).insert("R7"@, 7).insert(
        "R8"@,
        8,
    ).insert("R9"@, 9).insert("R10"@, 10).insert("R11"@, 11).insert("R12"@, 12).insert(
        "R13"@,
        13,
    ).insert("R14"@, 14).insert("R15"@, 15).insert("SCREEN"@, 16384).insert("KBD"@, 24576)
}

/// Build the symbol table that every translation run starts from.
pub fn predef_symbols() -> (t: SymbolTable)
    ensures
        t@ == spec_predef(),
{
    let mut t = SymbolTable::new();
    proof {
        reveal_strlit("SP");
        reveal_strlit("LCL");
        reveal_strlit("ARG");
        reveal_strlit("THIS");
        reveal_strlit("THAT");
        reveal_strlit("R0");
        reveal_strlit("R1");
        reveal_strlit("R2");
        reveal_strlit("R3");
        reveal_strlit("R4");
        reveal_strlit("R5");
        reveal_strlit("R6");
        reveal_strlit("R7");
        reveal_strlit("R8");
        reveal_strlit("R9");
        reveal_strlit("R10");
        reveal_strlit("R11");
        reveal_strlit("R12");
        reveal_strlit("R13");
        reveal_strlit("R14");
        reveal_strlit("R15");
        reveal_strlit("SCREEN");
        reveal_strlit("KBD");
        assert("SP"@ =~= seq!['S', 'P']);
        assert("LCL"@ =~= seq!['L', 'C', 'L']);
        assert("ARG"@ =~= seq!['A', 'R', 'G']);
        assert("THIS"@ =~= seq!['T', 'H', 'I', 'S']);
        assert("THAT"@ =~= seq!['T', 'H', 'A', 'T']);
        assert("R0"@ =~= seq!['R', '0']);
        assert("R1"@ =~= seq!['R', '1']);
        assert("R2"@ =~= seq!['R', '2']);
        assert("R3"@ =~= seq!['R', '3']);
        assert("R4"@ =~= seq!['R', '4']);
        assert("R5"@ =~= seq!['R', '5']);
        assert("R6"@ =~= seq!['R', '6']);
        assert("R7"@ =~= seq!['R', '7']);
        assert("R8"@ =~= seq!['R', '8']);
        assert("R9"@ =~= seq!['R', '9']);
        assert("R10"@ =~= seq!['R', '1', '0']);
        assert("R11"@ =~= seq!['R', '1', '1']);
        assert("R12"@ =~= seq!['R', '1', '2']);
        assert("R13"@ =~= seq!['R', '1', '3']);
        assert("R14"@ =~= seq!['R', '1', '4']);
        assert("R15"@ =~= seq!['R', '1', '5']);
        assert("SCREEN"@ =~= seq!['S', 'C', 'R', 'E', 'E', 'N']);
        assert("KBD"@ =~= seq!['K', 'B', 'D']);
    }
    t.add_entry("SP".to_owned(), 0);
    t.add_entry("LCL".to_owned(), 1);
    t.add_entry("ARG".to_owned(), 2);
    t.add_entry("THIS".to_owned(), 3);
    t.add_entry("THAT".to_owned(), 4);
    t.add_entry("R0".to_owned(), 0);
    t.add_entry("R1".to_owned(), 1);
    t.add_entry("R2".to_owned(), 2);
    t.add_entry("R3".to_owned(), 3);
    t.add_entry("R4".to_owned(), 4);
    t.add_entry("R5".to_owned(), 5);
    t.add_entry("R6".to_owned(), 6);
    t.add_entry("R7".to_owned(), 7);
    t.add_entry("R8".to_owned(), 8);
    t.add_entry("R9".to_owned(), 9);
    t.add_entry("R10".to_owned(), 10);
    t.add_entry("R11".to_owned(), 11);
    t.add_entry("R12".to_owned(), 12);
    t.add_entry("R13".to_owned(), 13);
    t.add_entry("R14".to_owned(), 14);
    t.add_entry("R15".to_owned(), 15);
    t.add_entry("SCREEN".to_owned(), 16384);
    t.add_entry("KBD".to_owned(), 24576);
    t
}

} // verus!
