//! ELF dynamic-linking analysis: the dynamic symbol table of an image and
//! the subset of a library's symbols an executable actually references.
//!
//! The raw tables are read out of the image by goblin behind two trusted
//! wrappers; everything done with them — set semantics, the empty-name rule
//! and the membership filter — is verified here.

use vstd::prelude::*;

use crate::TraceError;

verus! {

/// A set of symbol names with set semantics: no duplicate names, in first
/// insertion order. Views as the set of its names' character sequences.
#[derive(Debug)]
pub struct SymbolSet {
    names: Vec<String>,
}

impl View for SymbolSet {
    type V = Set<Seq<char>>;

    closed spec fn view(&self) -> Set<Seq<char>> {
        self.names.deep_view().to_set()
    }
}

impl SymbolSet {
    /// The names, in insertion order.
    pub closed spec fn to_seq(&self) -> Seq<Seq<char>> {
        self.names.deep_view()
    }

    /// No name occurs twice.
    pub closed spec fn wf(&self) -> bool {
        forall|i: int, j: int|
            0 <= i < j < self.names@.len() ==> self.names@[i]@ != self.names@[j]@
    }

    /// The set view is exactly the elements of the insertion-order sequence.
    pub proof fn lemma_seq_set(&self)
        ensures
            self@ == self.to_seq().to_set(),
            forall|i: int| 0 <= i < self.to_seq().len() ==> self@.contains(#[trigger] self.to_seq()[i]),
    {
        assert forall|i: int| 0 <= i < self.to_seq().len() implies self@.contains(
            #[trigger] self.to_seq()[i],
        ) by {
            assert(self.to_seq().contains(self.to_seq()[i]));
        }
    }

    /// An empty set.
    pub fn new() -> (s: SymbolSet)
        ensures
            s.wf(),
            s@ == Set::<Seq<char>>::empty(),
            s.to_seq() == Seq::<Seq<char>>::empty(),
    {
        let s = SymbolSet { names: Vec::new() };
        proof {
            assert(s.to_seq() =~= Seq::<Seq<char>>::empty());
            assert(s@ =~= Set::<Seq<char>>::empty());
        }
        s
    }

    /// How many distinct names the set holds.
    pub fn len(&self) -> (n: usize)
        ensures
            n == self.to_seq().len(),
    {
        self.names.len()
    }

    /// Whether `name` is a member.
    pub fn contains(&self, name: &String) -> (b: bool)
        ensures
            b == self@.contains(name@),
    {
        let mut i: usize = 0;
        while i < self.names.len()
            invariant
                i <= self.names@.len(),
                forall|j: int| 0 <= j < i ==> self.names@[j]@ != name@,
            decreases self.names@.len() - i,
        {
            if self.names[i] == *name {
                proof {
                    assert(self.to_seq()[i as int] == name@);
                    assert(self.to_seq().contains(name@));
                }
                return true;
            }
            i = i + 1;
        }
        proof {
            assert(!self.to_seq().contains(name@));
        }
        false
    }

    /// Appending an element to a sequence inserts it into the element set.
    proof fn lemma_push_to_set(s: Seq<Seq<char>>, x: Seq<char>)
        ensures
            s.push(x).to_set() == s.to_set().insert(x),
    {
        assert forall|y: Seq<char>| s.push(x).to_set().contains(y) implies s.to_set().insert(
            x,
        ).contains(y) by {
            let k = choose|k: int| 0 <= k < s.push(x).len() && #[trigger] s.push(x)[k] == y;
            if k < s.len() {
                assert(s[k] == y);
                assert(s.contains(y));
            }
        }
        assert forall|y: Seq<char>| s.to_set().insert(x).contains(y) implies s.push(
            x,
        ).to_set().contains(y) by {
            if y == x {
                assert(s.push(x)[s.len() as int] == y);
                assert(s.push(x).contains(y));
            } else {
                let k = choose|k: int| 0 <= k < s.len() && #[trigger] s[k] == y;
                assert(s.push(x)[k] == y);
                assert(s.push(x).contains(y));
            }
        }
        assert(s.push(x).to_set() =~= s.to_set().insert(x));
    }

    /// Adds `name`; a name already present is discarded, keeping set
    /// semantics.
    pub fn insert(&mut self, name: String)
        requires
            old(self).wf(),
        ensures
            final(self).wf(),
            final(self)@ == old(self)@.insert(name@),
            final(self).to_seq() == if old(self)@.contains(name@) {
                old(self).to_seq()
            } else {
                old(self).to_seq().push(name@)
            },
    {
        let present = self.contains(&name);
        if !present {
            self.names.push(name);
            proof {
                assert(self.to_seq() =~= old(self).to_seq().push(name@));
                assert(!old(self).to_seq().contains(name@));
                assert forall|k: int| 0 <= k < self.names@.len() - 1 implies self.names@[k]@
                    != name@ by {
                    assert(old(self).to_seq()[k] == self.names@[k]@);
                }
                Self::lemma_push_to_set(old(self).to_seq(), name@);
            }
        } else {
            proof {
                assert(self.to_seq() =~= old(self).to_seq());
                assert(self@ =~= old(self)@.insert(name@));
            }
        }
    }

    /// The names, in insertion order, for iteration by the attachment loop.
    pub fn names(&self) -> (r: &Vec<String>)
        ensures
            r.deep_view() == self.to_seq(),
    {
        &self.names
    }
}

/// The names in an ELF image's dynamic symbol table, in table order, or
/// `None` if the image or a name offset is malformed. A function of the
/// image bytes alone.
pub uninterp spec fn elf_dynsym_names(bytes: Seq<u8>) -> Option<Seq<Seq<char>>>;

/// Relies on `goblin::elf::Elf::parse` and `goblin::strtab::Strtab::get_at`:
/// parsing an ELF image and looking its symbols' name offsets up in the
/// dynamic string table is a function of the image bytes alone. `None`
/// stands for an image that does not parse or a name offset the string
/// table does not resolve.
#[verifier::external_body]
fn dynsym_names_raw(bytes: &[u8]) -> (r: Option<Vec<String>>)
    ensures
        r.deep_view() == elf_dynsym_names(bytes@),
{
    let elf = goblin::elf::Elf::parse(bytes).ok()?;
    let mut names: Vec<String> = Vec::new();
    for sym in elf.dynsyms.iter() {
        names.push(elf.dynstrtab.get_at(sym.st_name)?.to_string());
    }
    Some(names)
}

/// For each entry of the image's dynamic relocation-with-addend table, the
/// name of the dynamic symbol it references, in table order, or `None` if
/// the image, a symbol index or a name offset is malformed. A function of
/// the image bytes alone.
pub uninterp spec fn elf_rela_sym_names(bytes: Seq<u8>) -> Option<Seq<Seq<char>>>;

/// Relies on `goblin::elf::Elf::parse`, `goblin::elf::Symtab::get` and
/// `goblin::strtab::Strtab::get_at`: the dynamic relocation entries of an
/// image, the symbols they reference by index and those symbols' names are
/// functions of the image bytes alone. `None` stands for an image that does
/// not parse, a relocation whose symbol index is out of range, or a name
/// offset the string table does not resolve.
#[verifier::external_body]
fn rela_sym_names_raw(bytes: &[u8]) -> (r: Option<Vec<String>>)
    ensures
        r.deep_view() == elf_rela_sym_names(bytes@),
{
    let elf = goblin::elf::Elf::parse(bytes).ok()?;
    let mut names: Vec<String> = Vec::new();
    for rel in elf.dynrelas.iter() {
        let sym = elf.dynsyms.get(rel.r_sym)?;
        names.push(elf.dynstrtab.get_at(sym.st_name)?.to_string());
    }
    Some(names)
}

/// Reads the set of names in the dynamic symbol table of the ELF image
/// `bytes`: the symbols visible to dynamic linking, defined and undefined,
/// duplicates discarded. Fails exactly when the image or one of its name
/// offsets is malformed.
pub fn read_dynamic_symbols(bytes: &[u8]) -> (r: Result<SymbolSet, TraceError>)
    ensures
        r is Ok <==> elf_dynsym_names(bytes@) is Some,
        r matches Ok(s) ==> s.wf() && s@ == elf_dynsym_names(bytes@).unwrap().to_set(),
        r matches Err(e) ==> e == TraceError::Parse,
{
    match dynsym_names_raw(bytes) {
        None => Err(TraceError::Parse),
        Some(names) => {
            let ghost all = names.deep_view();
            let mut s = SymbolSet::new();
            let mut i: usize = 0;
            proof {
                assert(s@ =~= all.take(0).to_set());
            }
            while i < names.len()
                invariant
                    i <= names@.len(),
                    all == names.deep_view(),
                    s.wf(),
                    s@ == all.take(i as int).to_set(),
                decreases names@.len() - i,
            {
                let name = names[i].clone();
                proof {
                    assert(name@ == all[i as int]);
                }
                s.insert(name);
                proof {
                    lemma_take_extend(all, i as int);
                }
                i = i + 1;
            }
            proof {
                assert(all.take(names@.len() as int) =~= all);
            }
            Ok(s)
        },
    }
}

/// Extending a prefix by one element inserts that element into its set.
proof fn lemma_take_extend<A>(s: Seq<A>, i: int)
    requires
        0 <= i < s.len(),
    ensures
        s.take(i + 1).to_set() == s.take(i).to_set().insert(s[i]),
{
    assert forall|x: A| s.take(i + 1).to_set().contains(x) implies s.take(i).to_set().insert(
        s[i],
    ).contains(x) by {
        let k = choose|k: int| 0 <= k < s.take(i + 1).len() && #[trigger] s.take(i + 1)[k] == x;
        if k < i {
            assert(s.take(i)[k] == x);
            assert(s.take(i).contains(x));
        }
    }
    assert forall|x: A| s.take(i).to_set().insert(s[i]).contains(x) implies s.take(
        i + 1,
    ).to_set().contains(x) by {
        if x == s[i] {
            assert(s.take(i + 1)[i] == x);
            assert(s.take(i + 1).contains(x));
        } else {
            let k = choose|k: int| 0 <= k < s.take(i).len() && #[trigger] s.take(i)[k] == x;
            assert(s.take(i + 1)[k] == x);
            assert(s.take(i + 1).contains(x));
        }
    }
    assert(s.take(i + 1).to_set() =~= s.take(i).to_set().insert(s[i]));
}

/// The functions an executable actually uses from a library: the candidate
/// names its relocations reference that are non-empty and exported by the
/// library.
pub open spec fn used_functions(candidates: Seq<Seq<char>>, library: Set<Seq<char>>) -> Set<
    Seq<char>,
> {
    Set::new(|n: Seq<char>| candidates.contains(n) && n.len() > 0 && library.contains(n))
}

/// Keeps, of `candidates`, exactly the non-empty names that are members of
/// `library`, with set semantics.
pub fn select_used_functions(candidates: &Vec<String>, library: &SymbolSet) -> (r: SymbolSet)
    ensures
        r.wf(),
        r@ == used_functions(candidates.deep_view(), library@),
{
    let ghost all = candidates.deep_view();
    let mut r = SymbolSet::new();
    let mut i: usize = 0;
    proof {
        assert(r@ =~= used_functions(all.take(0), library@));
    }
    while i < candidates.len()
        invariant
            i <= candidates@.len(),
            all == candidates.deep_view(),
            r.wf(),
            r@ == used_functions(all.take(i as int), library@),
        decreases candidates@.len() - i,
    {
        let name = &candidates[i];
        proof {
            assert(name@ == all[i as int]);
        }
        if !name.as_str().is_empty() && library.contains(name) {
            r.insert(name.clone());
        }
        proof {
            lemma_used_functions_extend(all, i as int, library@);
            if all[i as int].len() > 0 && library@.contains(all[i as int]) {
                assert(r@ =~= used_functions(all.take(i + 1), library@));
            } else {
                assert(r@ =~= used_functions(all.take(i + 1), library@));
            }
        }
        i = i + 1;
    }
    proof {
        assert(all.take(candidates@.len() as int) =~= all);
    }
    r
}

/// One selection step: a candidate is added exactly when it is non-empty
/// and exported by the library.
proof fn lemma_used_functions_extend(s: Seq<Seq<char>>, i: int, library: Set<Seq<char>>)
    requires
        0 <= i < s.len(),
    ensures
        used_functions(s.take(i + 1), library) == if s[i].len() > 0 && library.contains(s[i]) {
            used_functions(s.take(i), library).insert(s[i])
        } else {
            used_functions(s.take(i), library)
        },
{
    let lhs = used_functions(s.take(i + 1), library);
    assert forall|x: Seq<char>| s.take(i + 1).contains(x) implies (s.take(i).contains(x) || x
        == s[i]) by {
        let k = choose|k: int| 0 <= k < s.take(i + 1).len() && #[trigger] s.take(i + 1)[k] == x;
        if k < i {
            assert(s.take(i)[k] == x);
        }
    }
    assert forall|x: Seq<char>| s.take(i).contains(x) implies s.take(i + 1).contains(x) by {
        let k = choose|k: int| 0 <= k < s.take(i).len() && #[trigger] s.take(i)[k] == x;
        assert(s.take(i + 1)[k] == x);
    }
    assert(s.take(i + 1)[i] == s[i]);
    assert(s.take(i + 1).contains(s[i]));
    if s[i].len() > 0 && library.contains(s[i]) {
        assert(lhs =~= used_functions(s.take(i), library).insert(s[i]));
    } else {
        assert(lhs =~= used_functions(s.take(i), library));
    }
}

/// Resolves the functions the executable image `exe_bytes` actually
/// references from a library exporting `library_symbols`: the names its
/// dynamic relocation-with-addend entries reference, kept exactly when
/// non-empty and present in `library_symbols`. An executable with no
/// dynamic relocations yields the empty set, not an error; failure means
/// the image itself is malformed.
pub fn resolve_used_functions(exe_bytes: &[u8], library_symbols: &SymbolSet) -> (r: Result<
    SymbolSet,
    TraceError,
>)
    ensures
        r is Ok <==> elf_rela_sym_names(exe_bytes@) is Some,
        r matches Ok(s) ==> s.wf() && s@ == used_functions(
            elf_rela_sym_names(exe_bytes@).unwrap(),
            library_symbols@,
        ),
        r matches Err(e) ==> e == TraceError::Parse,
{
    match rela_sym_names_raw(exe_bytes) {
        None => Err(TraceError::Parse),
        Some(candidates) => Ok(select_used_functions(&candidates, library_symbols)),
    }
}

/// Law: the resolved set is a subset of what the library exports, and the
/// empty name is never in it.
pub proof fn lemma_resolved_subset(candidates: Seq<Seq<char>>, library: Set<Seq<char>>)
    ensures
        used_functions(candidates, library).subset_of(library),
        !used_functions(candidates, library).contains(Seq::<char>::empty()),
{
}

/// Law: resolution is deterministic. Any two results obtained from the same
/// executable image and the same library symbol set are equal.
pub proof fn lemma_resolve_deterministic(
    exe: Seq<u8>,
    library: Set<Seq<char>>,
    r1: Set<Seq<char>>,
    r2: Set<Seq<char>>,
)
    requires
        elf_rela_sym_names(exe) is Some,
        r1 == used_functions(elf_rela_sym_names(exe).unwrap(), library),
        r2 == used_functions(elf_rela_sym_names(exe).unwrap(), library),
    ensures
        r1 == r2,
{
}

} // verus!
