//! Symbol resolution and instruction encoding: a two-pass symbol table
//! and the generator that turns parsed lines into 16-bit binary words.

use vstd::prelude::*;

use crate::error::{Error, ErrorView};
use crate::parser::{
    AsmLine, AsmLineView, Comp, Dest, Jump, comp_code, dest_code, jump_code, line_symbols_ok,
};
use crate::text::{
    bin_string, is_digit_char, is_numeric_seq, numeric_value, bin_chars, chars_string, is_numeric,
    read_numeric, str_chars,
};

verus! {

/// Variable addresses grow from 16 up to this ceiling, the start of the
/// screen region; reaching it is a fatal condition.
pub const VAR_CEILING: u32 = 16384;

/// The first address handed to a user-defined variable.
pub const FIRST_VAR: u32 = 16;

/// The mapping that a list of `(name, address)` entries denotes: a later
/// entry for the same name wins.
pub open spec fn assoc_map(entries: Seq<(String, u32)>) -> Map<Seq<char>, u32>
    decreases entries.len(),
{
    if entries.len() == 0 {
        Map::empty()
    } else {
        assoc_map(entries.drop_last()).insert(entries.last().0@, entries.last().1)
    }
}

/// An entry with no later entry for the same name gives the mapping's
/// value at that name.
proof fn lemma_assoc_last(entries: Seq<(String, u32)>, k: Seq<char>, i: int)
    requires
        0 <= i < entries.len(),
        entries[i].0@ == k,
        forall|j: int| i < j < entries.len() ==> #[trigger] entries[j].0@ != k,
    ensures
        assoc_map(entries).contains_key(k),
        assoc_map(entries)[k] == entries[i].1,
    decreases entries.len(),
{
    if i < entries.len() - 1 {
        lemma_assoc_last(entries.drop_last(), k, i);
    }
}

/// A name on no entry is not in the mapping.
proof fn lemma_assoc_none(entries: Seq<(String, u32)>, k: Seq<char>)
    requires
        forall|j: int| 0 <= j < entries.len() ==> #[trigger] entries[j].0@ != k,
    ensures
        !assoc_map(entries).contains_key(k),
    decreases entries.len(),
{
    if entries.len() > 0 {
        lemma_assoc_none(entries.drop_last(), k);
    }
}

/// The fixed predeclared entries every symbol table starts from.
pub open spec fn predefined_table() -> Map<Seq<char>, u32> {
    Map::<Seq<char>, u32>::empty().insert("SP"@, 0).insert("LCL"@, 1).insert("ARG"@, 2).insert(
        "THIS"@,
        3,
    ).insert("THAT"@, 4).insert("R0"@, 0).insert("R1"@, 1).insert("R2"@, 2).insert(
        "R3"@,
        3,
    ).insert("R4"@, 4).insert("R5"@, 5).insert("R6"@, 6).insert("R7"@, 7).insert(
        "R8"@,
        8,
    ).insert("R9"@, 9).insert("R10"@, 10).insert("R11"@, 11).insert("R12"@, 12).insert(
        "R13"@,
        13,
    ).insert("R14"@, 14).insert("R15"@, 15).insert("SCREEN"@, 16384).insert("KBD"@, 24576)
}

/// What `get` returns over a table mapping: a purely numeric name is its
/// own address (read directly, never through the table, and `None` only
/// past the 32-bit range); any other name is looked up.
pub open spec fn resolve(m: Map<Seq<char>, u32>, s: Seq<char>) -> Option<u32> {
    if is_numeric_seq(s) {
        if numeric_value(s) <= u32::MAX {
            Some(numeric_value(s) as u32)
        } else {
            None
        }
    } else if m.contains_key(s) {
        Some(m[s])
    } else {
        None
    }
}

/// The two-pass resolver mapping symbol names to addresses.
#[derive(Debug)]
pub struct SymbolTable {
    entries: Vec<(String, u32)>,
    rom_address: u32,
    index: u32,
    limit: u32,
}

impl View for SymbolTable {
    type V = Map<Seq<char>, u32>;

    closed spec fn view(&self) -> Map<Seq<char>, u32> {
        assoc_map(self.entries@)
    }
}

impl SymbolTable {
    /// The address the next fresh variable would get.
    pub closed spec fn next_var(&self) -> u32 {
        self.index
    }

    /// The running instruction-address counter of the label pass.
    pub closed spec fn rom(&self) -> u32 {
        self.rom_address
    }

    /// The table's internal invariant: the variable cursor never passes
    /// the ceiling.
    pub closed spec fn wf(&self) -> bool {
        self.limit == VAR_CEILING && self.index <= VAR_CEILING
    }

    /// Appends one entry; a later entry for the same name wins.
    fn put(&mut self, name: String, addr: u32)
        ensures
            final(self)@ == old(self)@.insert(name@, addr),
            final(self).rom() == old(self).rom(),
            final(self).next_var() == old(self).next_var(),
            final(self).wf() == old(self).wf(),
    {
        self.entries.push((name, addr));
        proof {
            assert(self.entries@.drop_last() =~= old(self).entries@);
        }
    }

    /// A table holding exactly the predeclared entries, the variable
    /// cursor at the first variable address and the instruction counter
    /// at zero.
    pub fn new() -> (r: Self)
        ensures
            r.wf(),
            r@ == predefined_table(),
            r.next_var() == FIRST_VAR,
            r.rom() == 0,
    {
        let mut t = SymbolTable {
            entries: Vec::new(),
            rom_address: 0,
            index: FIRST_VAR,
            limit: VAR_CEILING,
        };
        proof {
            assert(t@ =~= Map::<Seq<char>, u32>::empty());
        }
        t.put(String::from_str("SP"), 0);
        t.put(String::from_str("LCL"), 1);
        t.put(String::from_str("ARG"), 2);
        t.put(String::from_str("THIS"), 3);
        t.put(String::from_str("THAT"), 4);
        t.put(String::from_str("R0"), 0);
        t.put(String::from_str("R1"), 1);
        t.put(String::from_str("R2"), 2);
        t.put(String::from_str("R3"), 3);
        t.put(String::from_str("R4"), 4);
        t.put(String::from_str("R5"), 5);
        t.put(String::from_str("R6"), 6);
        t.put(String::from_str("R7"), 7);
        t.put(String::from_str("R8"), 8);
        t.put(String::from_str("R9"), 9);
        t.put(String::from_str("R10"), 10);
        t.put(String::from_str("R11"), 11);
        t.put(String::from_str("R12"), 12);
        t.put(String::from_str("R13"), 13);
        t.put(String::from_str("R14"), 14);
        t.put(String::from_str("R15"), 15);
        t.put(String::from_str("SCREEN"), 16384);
        t.put(String::from_str("KBD"), 24576);
        t
    }

    /// Looks a name up in the table alone, ignoring numeric reading.
    fn find(&self, name: &String) -> (r: Option<u32>)
        ensures
            match r {
                Some(v) => self@.contains_key(name@) && self@[name@] == v,
                None => !self@.contains_key(name@),
            },
    {
        let mut i: usize = self.entries.len();
        while i > 0
            invariant
                0 <= i <= self.entries@.len(),
                forall|j: int| i <= j < self.entries@.len() ==> #[trigger] self.entries@[j].0@ != name@,
            decreases i,
        {
            i = i - 1;
            if self.entries[i].0 == *name {
                proof {
                    lemma_assoc_last(self.entries@, name@, i as int);
                }
                return Some(self.entries[i].1);
            }
        }
        proof {
            lemma_assoc_none(self.entries@, name@);
        }
        None
    }

    /// Inserts a variable symbol.
    ///
    /// A numeric or empty name and a name already present allocate
    /// nothing and are left alone.  Any other name gets the next free
    /// variable address and the cursor advances — unless the cursor
    /// stands at the ceiling, in which case the allocation that would be
    /// needed is the fatal address-space-exhaustion condition.
    pub fn insert(&mut self, name: String) -> (r: Result<(), Error>)
        requires
            old(self).wf(),
        ensures
            final(self).wf(),
            final(self).rom() == old(self).rom(),
            if name@.len() == 0 || is_numeric_seq(name@) || old(self)@.contains_key(name@) {
                &&& r is Ok
                &&& final(self)@ == old(self)@
                &&& final(self).next_var() == old(self).next_var()
            } else if old(self).next_var() == VAR_CEILING {
                &&& r matches Err(e) && e@ == ErrorView::AddressSpaceExhausted
                &&& final(self)@ == old(self)@
                &&& final(self).next_var() == old(self).next_var()
            } else {
                &&& r is Ok
                &&& final(self)@ == old(self)@.insert(name@, old(self).next_var())
                &&& final(self).next_var() == old(self).next_var() + 1
            },
    {
        let chars = str_chars(name.as_str());
        if chars.len() == 0 || is_numeric(&chars) {
            return Ok(());
        }
        if let Some(_) = self.find(&name) {
            return Ok(());
        }
        if self.index == self.limit {
            return Err(Error::AddressSpaceExhausted);
        }
        let idx = self.index;
        self.put(name, idx);
        self.index = idx + 1;
        Ok(())
    }

    /// Resolves a name to an address: a purely numeric name is read as
    /// its own address, any other name is looked up.
    pub fn get(&self, name: String) -> (r: Option<u32>)
        ensures
            r == resolve(self@, name@),
    {
        let chars = str_chars(name.as_str());
        if is_numeric(&chars) {
            read_numeric(&chars)
        } else {
            self.find(&name)
        }
    }

    /// The label pass's step: a label declaration is entered at the
    /// current instruction address (a later declaration of the same name
    /// wins); any other line advances the instruction counter.
    pub fn set_rom(&mut self, line: &AsmLine)
        requires
            old(self).rom() < u32::MAX,
        ensures
            final(self).wf() == old(self).wf(),
            final(self).next_var() == old(self).next_var(),
            match line@ {
                AsmLineView::LCommand(name) => {
                    &&& final(self)@ == old(self)@.insert(name, old(self).rom())
                    &&& final(self).rom() == old(self).rom()
                },
                _ => {
                    &&& final(self)@ == old(self)@
                    &&& final(self).rom() == old(self).rom() + 1
                },
            },
    {
        match line {
            AsmLine::LCommand(name) => {
                self.insert_rom(name.clone());
            },
            _ => {
                self.rom_address = self.rom_address + 1;
            },
        }
    }

    /// Enters a label name at the current instruction address.
    fn insert_rom(&mut self, name: String)
        ensures
            final(self)@ == old(self)@.insert(name@, old(self).rom()),
            final(self).rom() == old(self).rom(),
            final(self).next_var() == old(self).next_var(),
            final(self).wf() == old(self).wf(),
    {
        let addr = self.rom_address;
        self.put(name, addr);
    }
}

/// The label pass over a parsed sequence: a running instruction-address
/// counter starts at `rom`; every label declaration is entered at the
/// counter's current value (a later declaration of the same name wins),
/// and every other line advances the counter by one.
pub open spec fn label_pass(lines: Seq<AsmLineView>, m: Map<Seq<char>, u32>, rom: u32) -> Map<
    Seq<char>,
    u32,
>
    decreases lines.len(),
{
    if lines.len() == 0 {
        m
    } else {
        match lines[0] {
            AsmLineView::LCommand(name) => label_pass(lines.drop_first(), m.insert(name, rom), rom),
            _ => label_pass(lines.drop_first(), m, (rom + 1) as u32),
        }
    }
}

/// How many lines produce an output word: all but label declarations.
pub open spec fn rom_count(lines: Seq<AsmLineView>) -> nat
    decreases lines.len(),
{
    if lines.len() == 0 {
        0
    } else {
        (match lines[0] {
            AsmLineView::LCommand(_) => 0nat,
            _ => 1nat,
        }) + rom_count(lines.drop_first())
    }
}

/// The variable pass over a parsed sequence: each address-instruction
/// or label symbol is offered to the table; a numeric, empty or
/// already-present name allocates nothing and changes nothing; any
/// other name gets the cursor's address and the cursor advances, and
/// the pass fails only when such an allocation finds the cursor at the
/// ceiling.  Yields the final table and cursor.
pub open spec fn var_pass(lines: Seq<AsmLineView>, m: Map<Seq<char>, u32>, index: u32) -> Option<
    (Map<Seq<char>, u32>, u32),
>
    decreases lines.len(), 0int,
{
    if lines.len() == 0 {
        Some((m, index))
    } else {
        match lines[0] {
            AsmLineView::CCommand(..) => var_pass(lines.drop_first(), m, index),
            AsmLineView::ACommand(s) => var_pass_step(lines.drop_first(), m, index, s),
            AsmLineView::LCommand(s) => var_pass_step(lines.drop_first(), m, index, s),
        }
    }
}

/// One offer of a symbol to the variable pass.
pub open spec fn var_pass_step(
    rest: Seq<AsmLineView>,
    m: Map<Seq<char>, u32>,
    index: u32,
    s: Seq<char>,
) -> Option<(Map<Seq<char>, u32>, u32)>
    decreases rest.len(), 1int,
{
    if s.len() == 0 || is_numeric_seq(s) || m.contains_key(s) {
        var_pass(rest, m, index)
    } else if index == VAR_CEILING {
        None
    } else {
        var_pass(rest, m.insert(s, index), (index + 1) as u32)
    }
}

/// The table the two passes build over a parsed sequence, when the
/// variable pass completes.
pub open spec fn built_table(lines: Seq<AsmLineView>) -> Option<(Map<Seq<char>, u32>, u32)> {
    var_pass(lines, label_pass(lines, predefined_table(), 0), FIRST_VAR)
}

/// The encoder: turns parsed lines, with symbols resolved, into 16-bit
/// binary words.
#[derive(Debug)]
pub struct CodeGenerator {
    table: SymbolTable,
    lines: Vec<AsmLine>,
}

impl CodeGenerator {
    /// The symbol table's mapping.
    pub closed spec fn table_view(&self) -> Map<Seq<char>, u32> {
        self.table@
    }

    /// The parsed lines held for encoding.
    pub closed spec fn lines_view(&self) -> Seq<AsmLineView> {
        self.lines.deep_view()
    }

    /// The generator's internal invariant.
    pub closed spec fn wf(&self) -> bool {
        self.table.wf()
    }

    /// Builds the symbol table over the parsed lines: the label pass in
    /// full, then the variable pass.  Fails only when the variable pass
    /// exhausts the address space.
    pub fn new(lines: Vec<AsmLine>) -> (r: Result<CodeGenerator, Error>)
        requires
            lines@.len() <= u32::MAX,
        ensures
            match r {
                Ok(cg) => {
                    &&& cg.wf()
                    &&& built_table(lines.deep_view()) matches Some(p) && cg.table_view() == p.0
                    &&& cg.lines_view() == lines.deep_view()
                },
                Err(e) => {
                    &&& e@ == ErrorView::AddressSpaceExhausted
                    &&& built_table(lines.deep_view()) is None
                },
            },
    {
        let ghost all: Seq<AsmLineView> = lines.deep_view();
        let mut table = SymbolTable::new();
        let n = lines.len();
        let mut i: usize = 0;
        proof {
            assert(all.subrange(0, n as int) =~= all);
        }
        while i < n
            invariant
                0 <= i <= n,
                n == lines@.len(),
                n <= u32::MAX,
                all == lines.deep_view(),
                table.wf(),
                table.next_var() == FIRST_VAR,
                table.rom() <= i,
                label_pass(all, predefined_table(), 0) == label_pass(
                    all.subrange(i as int, n as int),
                    table@,
                    table.rom(),
                ),
            decreases n - i,
        {
            proof {
                assert(all.subrange(i as int, n as int).drop_first() =~= all.subrange(
                    i + 1,
                    n as int,
                ));
                assert(all.subrange(i as int, n as int)[0] == lines@[i as int]@);
            }
            table.set_rom(&lines[i]);
            i = i + 1;
        }
        proof {
            assert(all.subrange(n as int, n as int) =~= Seq::<AsmLineView>::empty());
        }
        let mut i: usize = 0;
        proof {
            assert(all.subrange(0, n as int) =~= all);
        }
        while i < n
            invariant
                0 <= i <= n,
                n == lines@.len(),
                all == lines.deep_view(),
                table.wf(),
                built_table(all) == var_pass(
                    all.subrange(i as int, n as int),
                    table@,
                    table.next_var(),
                ),
            decreases n - i,
        {
            proof {
                assert(all.subrange(i as int, n as int).drop_first() =~= all.subrange(
                    i + 1,
                    n as int,
                ));
                assert(all.subrange(i as int, n as int)[0] == lines@[i as int]@);
            }
            let ghost pre_m = table@;
            let ghost pre_idx = table.next_var();
            let ghost head = all.subrange(i as int, n as int);
            let ghost rest = all.subrange(i + 1, n as int);
            match lines[i].symbol() {
                Some(name) => {
                    proof {
                        assert(var_pass(head, pre_m, pre_idx) == var_pass_step(rest, pre_m, pre_idx, name@));
                    }
                    match table.insert(name) {
                        Ok(_) => {
                            proof {
                                assert(var_pass_step(rest, pre_m, pre_idx, name@) == var_pass(rest, table@, table.next_var()));
                            }
                        },
                        Err(e) => {
                            proof {
                                assert(var_pass_step(rest, pre_m, pre_idx, name@) is None);
                            }
                            return Err(e);
                        },
                    }
                },
                None => {
                    proof {
                        assert(var_pass(head, pre_m, pre_idx) == var_pass(rest, pre_m, pre_idx));
                    }
                },
            }
            i = i + 1;
        }
        proof {
            assert(all.subrange(n as int, n as int) =~= Seq::<AsmLineView>::empty());
        }
        Ok(CodeGenerator { table, lines })
    }

    /// Encodes one line: the fixed prefix `111`, then the 7-bit
    /// computation code, 3-bit destination code and 3-bit jump code.
    pub fn translate_c_command(&self, line: &AsmLine) -> (r: String)
        requires
            line@ matches AsmLineView::CCommand(..),
        ensures
            line@ matches AsmLineView::CCommand(c, d, j) ==> r@ == encode_c(c, d, j),
    {
        match line {
            AsmLine::CCommand(comp, dest, jump) => {
                let mut out: Vec<char> = Vec::new();
                out.push('1');
                out.push('1');
                out.push('1');
                let mut cbits = bin_chars(comp.code(), 7);
                out.append(&mut cbits);
                let mut dbits = bin_chars(dest.code(), 3);
                out.append(&mut dbits);
                let mut jbits = bin_chars(jump.code(), 3);
                out.append(&mut jbits);
                proof {
                    assert(out@ =~= encode_c(*comp, *dest, *jump));
                }
                chars_string(&out)
            },
            _ => unreached(),
        }
    }

    /// Encodes one address instruction: the target resolved through the
    /// table, then rendered as a 16-bit word with the high bit zero.  An
    /// address past 15 bits is a fatal range error; a non-numeric target
    /// missing from the table is an invariant violation surfaced as
    /// `UnresolvedSymbol`.
    pub fn translate_a_command(&self, line: &AsmLine) -> (r: Result<String, Error>)
        requires
            line@ matches AsmLineView::ACommand(..),
        ensures
            ({
                let enc = encode_line(line@, self.table_view());
                match r {
                    Ok(s) => enc matches Ok(w) && s@ == w,
                    Err(e) => enc matches Err(ev) && e@ == ev,
                }
            }),
    {
        match line {
            AsmLine::ACommand(name) => {
                match self.table.get(name.clone()) {
                    Some(v) => {
                        if v <= 32767 {
                            let bits = bin_chars(v, 16);
                            Ok(chars_string(&bits))
                        } else {
                            Err(Error::AddressOutOfRange(name.clone()))
                        }
                    },
                    None => {
                        let chars = str_chars(name.as_str());
                        if is_numeric(&chars) {
                            Err(Error::AddressOutOfRange(name.clone()))
                        } else {
                            Err(Error::UnresolvedSymbol(name.clone()))
                        }
                    },
                }
            },
            _ => unreached(),
        }
    }

    /// A label declaration contributes no output text.
    pub fn translate_l_command(&self) -> (r: String)
        ensures
            r@ == Seq::<char>::empty(),
    {
        String::new()
    }

    /// Encodes one line of any kind; a label declaration yields the
    /// empty string.
    pub fn translate(&self, line: &AsmLine) -> (r: Result<String, Error>)
        ensures
            ({
                let enc = encode_line(line@, self.table_view());
                match r {
                    Ok(s) => enc matches Ok(w) && s@ == w,
                    Err(e) => enc matches Err(ev) && e@ == ev,
                }
            }),
    {
        match line {
            AsmLine::CCommand(..) => Ok(self.translate_c_command(line)),
            AsmLine::ACommand(..) => self.translate_a_command(line),
            AsmLine::LCommand(..) => Ok(self.translate_l_command()),
        }
    }

    /// Encodes the whole program in order, one 16-character word per
    /// address or computation instruction; label declarations contribute
    /// no output line.  Stops at the first fatal encoding error.
    pub fn gen(&self) -> (r: Result<Vec<String>, Error>)
        ensures
            ({
                let enc = encode_all(self.lines_view(), self.table_view());
                match r {
                    Ok(out) => enc matches Ok(ws) && out.deep_view() == ws,
                    Err(e) => enc matches Err(ev) && e@ == ev,
                }
            }),
    {
        let ghost all: Seq<AsmLineView> = self.lines_view();
        let ghost m: Map<Seq<char>, u32> = self.table_view();
        let mut ret: Vec<String> = Vec::new();
        let n = self.lines.len();
        let mut i: usize = 0;
        proof {
            assert(all.subrange(0, n as int) =~= all);
            assert(ret.deep_view() =~= Seq::<Seq<char>>::empty());
            match encode_all(all, m) {
                Ok(t) => {
                    assert(Seq::<Seq<char>>::empty() + t =~= t);
                },
                Err(_) => {
                },
            }
        }
        while i < n
            invariant
                0 <= i <= n,
                n == self.lines@.len(),
                all == self.lines_view(),
                m == self.table_view(),
                encode_all(all, m) == with_prefix(
                    ret.deep_view(),
                    encode_all(all.subrange(i as int, n as int), m),
                ),
            decreases n - i,
        {
            proof {
                assert(all.subrange(i as int, n as int).drop_first() =~= all.subrange(
                    i + 1,
                    n as int,
                ));
                assert(all.subrange(i as int, n as int)[0] == self.lines@[i as int]@);
            }
            let ghost head_seq = all.subrange(i as int, n as int);
            let ghost rest = all.subrange(i + 1, n as int);
            match &self.lines[i] {
                AsmLine::LCommand(_) => {
                    proof {
                        assert(encode_all(head_seq, m) == encode_all(rest, m));
                    }
                },
                _ => {
                    match self.translate(&self.lines[i]) {
                        Ok(s) => {
                            let ghost pre = ret.deep_view();
                            ret.push(s);
                            proof {
                                assert(ret.deep_view() =~= pre.push(s@));
                                match encode_all(rest, m) {
                                    Ok(t) => {
                                        assert(encode_all(head_seq, m) == Ok::<_, ErrorView>(
                                            seq![s@] + t,
                                        ));
                                        assert(pre + (seq![s@] + t) =~= pre.push(s@) + t);
                                    },
                                    Err(e2) => {
                                        assert(encode_all(head_seq, m) == Err::<Seq<Seq<char>>, _>(
                                            e2,
                                        ));
                                    },
                                }
                            }
                        },
                        Err(e) => {
                            proof {
                                assert(encode_all(head_seq, m) == Err::<Seq<Seq<char>>, _>(e@));
                            }
                            return Err(e);
                        },
                    }
                },
            }
            i = i + 1;
        }
        proof {
            assert(all.subrange(n as int, n as int) =~= Seq::<AsmLineView>::empty());
            assert(ret.deep_view() + Seq::<Seq<char>>::empty() =~= ret.deep_view());
        }
        Ok(ret)
    }
}

/// The bits of one computation instruction: the fixed prefix `111`, the
/// computation, destination and jump codes in their fields.
pub open spec fn encode_c(c: Comp, d: Dest, j: Jump) -> Seq<char> {
    seq!['1', '1', '1'] + bin_string(comp_code(c) as nat, 7) + bin_string(dest_code(d) as nat, 3)
        + bin_string(jump_code(j) as nat, 3)
}

/// What encoding one line over a table mapping yields: a computation
/// instruction encodes unconditionally, a label declaration gives the
/// empty string, and an address instruction resolves its target, which
/// must fit in 15 bits.
pub open spec fn encode_line(l: AsmLineView, m: Map<Seq<char>, u32>) -> Result<
    Seq<char>,
    ErrorView,
> {
    match l {
        AsmLineView::CCommand(c, d, j) => Ok(encode_c(c, d, j)),
        AsmLineView::LCommand(_) => Ok(Seq::empty()),
        AsmLineView::ACommand(s) => match resolve(m, s) {
            Some(v) => if v <= 32767 {
                Ok(bin_string(v as nat, 16))
            } else {
                Err(ErrorView::AddressOutOfRange(s))
            },
            None => if is_numeric_seq(s) {
                Err(ErrorView::AddressOutOfRange(s))
            } else {
                Err(ErrorView::UnresolvedSymbol(s))
            },
        },
    }
}

/// What encoding a whole program yields: one word per address or
/// computation instruction in order, none for label declarations, or the
/// first fatal error.
pub open spec fn encode_all(lines: Seq<AsmLineView>, m: Map<Seq<char>, u32>) -> Result<
    Seq<Seq<char>>,
    ErrorView,
>
    decreases lines.len(),
{
    if lines.len() == 0 {
        Ok(Seq::empty())
    } else {
        match lines[0] {
            AsmLineView::LCommand(_) => encode_all(lines.drop_first(), m),
            _ => match encode_line(lines[0], m) {
                Err(e) => Err(e),
                Ok(w) => match encode_all(lines.drop_first(), m) {
                    Err(e) => Err(e),
                    Ok(ws) => Ok(seq![w] + ws),
                },
            },
        }
    }
}

/// Whether some line declares a label of the given name.
pub open spec fn declares_label(lines: Seq<AsmLineView>, k: Seq<char>) -> bool {
    exists|i: int| 0 <= i < lines.len() && lines[i] == AsmLineView::LCommand(k)
}

/// The label pass leaves every name that no line declares as a label
/// exactly as it found it.
pub proof fn lemma_label_pass_preserves(
    lines: Seq<AsmLineView>,
    m: Map<Seq<char>, u32>,
    rom: u32,
    k: Seq<char>,
)
    requires
        !declares_label(lines, k),
        m.contains_key(k),
    ensures
        label_pass(lines, m, rom).contains_key(k),
        label_pass(lines, m, rom)[k] == m[k],
    decreases lines.len(),
{
    if lines.len() > 0 {
        if declares_label(lines.drop_first(), k) {
            let i = choose|i: int|
                0 <= i < lines.drop_first().len() && lines.drop_first()[i]
                    == AsmLineView::LCommand(k);
            assert(lines[i + 1] == AsmLineView::LCommand(k));
            assert(declares_label(lines, k));
        }
        match lines[0] {
            AsmLineView::LCommand(name) => {
                assert(name != k) by {
                    if name == k {
                        assert(lines[0] == AsmLineView::LCommand(k));
                    }
                }
                lemma_label_pass_preserves(lines.drop_first(), m.insert(name, rom), rom, k);
            },
            _ => {
                lemma_label_pass_preserves(lines.drop_first(), m, (rom + 1) as u32, k);
            },
        }
    }
}

/// The variable pass never changes a name already in the table: a
/// symbol is assigned an address at most once, and a label keeps the
/// address the label pass gave it.
pub proof fn lemma_var_pass_preserves(
    lines: Seq<AsmLineView>,
    m: Map<Seq<char>, u32>,
    index: u32,
    m2: Map<Seq<char>, u32>,
    i2: u32,
    k: Seq<char>,
)
    requires
        var_pass(lines, m, index) == Some((m2, i2)),
        m.contains_key(k),
    ensures
        m2.contains_key(k),
        m2[k] == m[k],
    decreases lines.len(), 0int,
{
    if lines.len() > 0 {
        let rest = lines.drop_first();
        match lines[0] {
            AsmLineView::CCommand(..) => {
                lemma_var_pass_preserves(rest, m, index, m2, i2, k);
            },
            AsmLineView::ACommand(s) => {
                lemma_var_pass_step_preserves(rest, m, index, m2, i2, k, s);
            },
            AsmLineView::LCommand(s) => {
                lemma_var_pass_step_preserves(rest, m, index, m2, i2, k, s);
            },
        }
    }
}

/// One offered symbol never changes a name already in the table.
proof fn lemma_var_pass_step_preserves(
    rest: Seq<AsmLineView>,
    m: Map<Seq<char>, u32>,
    index: u32,
    m2: Map<Seq<char>, u32>,
    i2: u32,
    k: Seq<char>,
    s: Seq<char>,
)
    requires
        var_pass_step(rest, m, index, s) == Some((m2, i2)),
        m.contains_key(k),
    ensures
        m2.contains_key(k),
        m2[k] == m[k],
    decreases rest.len(), 1int,
{
    if s.len() == 0 || is_numeric_seq(s) || m.contains_key(s) {
        lemma_var_pass_preserves(rest, m, index, m2, i2, k);
    } else if index != VAR_CEILING {
        lemma_var_pass_preserves(rest, m.insert(s, index), (index + 1) as u32, m2, i2, k);
    }
}

/// The variable cursor never moves backwards.
pub proof fn lemma_var_pass_monotone(
    lines: Seq<AsmLineView>,
    m: Map<Seq<char>, u32>,
    index: u32,
    m2: Map<Seq<char>, u32>,
    i2: u32,
)
    requires
        index <= VAR_CEILING,
        var_pass(lines, m, index) == Some((m2, i2)),
    ensures
        index <= i2,
    decreases lines.len(), 0int,
{
    if lines.len() > 0 {
        let rest = lines.drop_first();
        match lines[0] {
            AsmLineView::CCommand(..) => {
                lemma_var_pass_monotone(rest, m, index, m2, i2);
            },
            AsmLineView::ACommand(s) => {
                lemma_var_pass_step_monotone(rest, m, index, m2, i2, s);
            },
            AsmLineView::LCommand(s) => {
                lemma_var_pass_step_monotone(rest, m, index, m2, i2, s);
            },
        }
    }
}

/// Cursor monotonicity across one offered symbol.
proof fn lemma_var_pass_step_monotone(
    rest: Seq<AsmLineView>,
    m: Map<Seq<char>, u32>,
    index: u32,
    m2: Map<Seq<char>, u32>,
    i2: u32,
    s: Seq<char>,
)
    requires
        index <= VAR_CEILING,
        var_pass_step(rest, m, index, s) == Some((m2, i2)),
    ensures
        index <= i2,
    decreases rest.len(), 1int,
{
    if s.len() == 0 || is_numeric_seq(s) || m.contains_key(s) {
        lemma_var_pass_monotone(rest, m, index, m2, i2);
    } else if index != VAR_CEILING {
        lemma_var_pass_monotone(rest, m.insert(s, index), (index + 1) as u32, m2, i2);
    }
}

/// A name the variable pass adds is a real variable symbol: non-empty
/// and not numeric.  In particular a purely numeric address target is
/// never entered in the table.
pub proof fn lemma_var_pass_new_keys(
    lines: Seq<AsmLineView>,
    m: Map<Seq<char>, u32>,
    index: u32,
    m2: Map<Seq<char>, u32>,
    i2: u32,
    k: Seq<char>,
)
    requires
        var_pass(lines, m, index) == Some((m2, i2)),
        !m.contains_key(k),
        m2.contains_key(k),
    ensures
        k.len() > 0,
        !is_numeric_seq(k),
    decreases lines.len(), 0int,
{
    if lines.len() > 0 {
        let rest = lines.drop_first();
        match lines[0] {
            AsmLineView::CCommand(..) => {
                lemma_var_pass_new_keys(rest, m, index, m2, i2, k);
            },
            AsmLineView::ACommand(s) => {
                lemma_var_pass_step_new_keys(rest, m, index, m2, i2, k, s);
            },
            AsmLineView::LCommand(s) => {
                lemma_var_pass_step_new_keys(rest, m, index, m2, i2, k, s);
            },
        }
    }
}

/// Freshly added names across one offered symbol.
proof fn lemma_var_pass_step_new_keys(
    rest: Seq<AsmLineView>,
    m: Map<Seq<char>, u32>,
    index: u32,
    m2: Map<Seq<char>, u32>,
    i2: u32,
    k: Seq<char>,
    s: Seq<char>,
)
    requires
        var_pass_step(rest, m, index, s) == Some((m2, i2)),
        !m.contains_key(k),
        m2.contains_key(k),
    ensures
        k.len() > 0,
        !is_numeric_seq(k),
    decreases rest.len(), 1int,
{
    if s.len() == 0 || is_numeric_seq(s) || m.contains_key(s) {
        lemma_var_pass_new_keys(rest, m, index, m2, i2, k);
    } else if index != VAR_CEILING {
        if s == k {
        } else {
            lemma_var_pass_new_keys(rest, m.insert(s, index), (index + 1) as u32, m2, i2, k);
        }
    }
}

/// Every address the variable pass hands out lies in the fresh range
/// between the cursor's starting and final positions: variables get
/// addresses from the starting cursor (16 in the pipeline) upward.
pub proof fn lemma_var_pass_range(
    lines: Seq<AsmLineView>,
    m: Map<Seq<char>, u32>,
    index: u32,
    m2: Map<Seq<char>, u32>,
    i2: u32,
    k: Seq<char>,
)
    requires
        index <= VAR_CEILING,
        var_pass(lines, m, index) == Some((m2, i2)),
        !m.contains_key(k),
        m2.contains_key(k),
    ensures
        index <= m2[k] < i2,
    decreases lines.len(), 0int,
{
    if lines.len() > 0 {
        let rest = lines.drop_first();
        match lines[0] {
            AsmLineView::CCommand(..) => {
                lemma_var_pass_range(rest, m, index, m2, i2, k);
            },
            AsmLineView::ACommand(s) => {
                lemma_var_pass_step_range(rest, m, index, m2, i2, k, s);
            },
            AsmLineView::LCommand(s) => {
                lemma_var_pass_step_range(rest, m, index, m2, i2, k, s);
            },
        }
    }
}

/// Fresh-range bounds across one offered symbol.
proof fn lemma_var_pass_step_range(
    rest: Seq<AsmLineView>,
    m: Map<Seq<char>, u32>,
    index: u32,
    m2: Map<Seq<char>, u32>,
    i2: u32,
    k: Seq<char>,
    s: Seq<char>,
)
    requires
        index <= VAR_CEILING,
        var_pass_step(rest, m, index, s) == Some((m2, i2)),
        !m.contains_key(k),
        m2.contains_key(k),
    ensures
        index <= m2[k] < i2,
    decreases rest.len(), 1int,
{
    if s.len() == 0 || is_numeric_seq(s) || m.contains_key(s) {
        lemma_var_pass_range(rest, m, index, m2, i2, k);
    } else if index != VAR_CEILING {
        let m1 = m.insert(s, index);
        if s == k {
            lemma_var_pass_preserves(rest, m1, (index + 1) as u32, m2, i2, k);
            lemma_var_pass_monotone(rest, m1, (index + 1) as u32, m2, i2);
        } else {
            lemma_var_pass_range(rest, m1, (index + 1) as u32, m2, i2, k);
        }
    }
}

/// Whether a line uses the given symbol: an address instruction whose
/// target it is, or a label declaration of that name.
pub open spec fn mentions_symbol(l: AsmLineView, k: Seq<char>) -> bool {
    l == AsmLineView::ACommand(k) || l == AsmLineView::LCommand(k)
}

/// The position of the first use of a symbol, or the length when it is
/// never used.
pub open spec fn first_use(lines: Seq<AsmLineView>, k: Seq<char>) -> int
    decreases lines.len(),
{
    if lines.len() == 0 {
        0
    } else if mentions_symbol(lines[0], k) {
        0
    } else {
        1 + first_use(lines.drop_first(), k)
    }
}

/// `first_use` stays within the program.
pub proof fn lemma_first_use_bounds(lines: Seq<AsmLineView>, k: Seq<char>)
    ensures
        0 <= first_use(lines, k) <= lines.len(),
    decreases lines.len(),
{
    if lines.len() > 0 && !mentions_symbol(lines[0], k) {
        lemma_first_use_bounds(lines.drop_first(), k);
    }
}

/// Variable symbols get strictly increasing addresses in first-use
/// order: of two symbols the pass adds, the one used earlier gets the
/// smaller address.  Together with `lemma_var_pass_range` (addresses
/// start at the cursor, 16 in the pipeline) and
/// `lemma_var_pass_preserves` (an assigned address never changes) this
/// is the whole variable-allocation discipline.
pub proof fn lemma_variable_order(
    lines: Seq<AsmLineView>,
    m: Map<Seq<char>, u32>,
    index: u32,
    m2: Map<Seq<char>, u32>,
    i2: u32,
    k1: Seq<char>,
    k2: Seq<char>,
)
    requires
        index <= VAR_CEILING,
        var_pass(lines, m, index) == Some((m2, i2)),
        !m.contains_key(k1),
        m2.contains_key(k1),
        !m.contains_key(k2),
        m2.contains_key(k2),
        first_use(lines, k1) < first_use(lines, k2),
    ensures
        m2[k1] < m2[k2],
    decreases lines.len(), 0int,
{
    lemma_first_use_bounds(lines, k1);
    lemma_first_use_bounds(lines, k2);
    if lines.len() > 0 {
        let rest = lines.drop_first();
        let head = lines[0];
        assert(!mentions_symbol(head, k2));
        assert(k1 != k2);
        match head {
            AsmLineView::CCommand(..) => {
                lemma_variable_order(rest, m, index, m2, i2, k1, k2);
            },
            AsmLineView::ACommand(s) => {
                lemma_var_pass_new_keys(lines, m, index, m2, i2, k1);
                lemma_variable_order_step(rest, m, index, m2, i2, k1, k2, s);
            },
            AsmLineView::LCommand(s) => {
                lemma_var_pass_new_keys(lines, m, index, m2, i2, k1);
                lemma_variable_order_step(rest, m, index, m2, i2, k1, k2, s);
            },
        }
    }
}

/// First-use ordering across one offered symbol.
proof fn lemma_variable_order_step(
    rest: Seq<AsmLineView>,
    m: Map<Seq<char>, u32>,
    index: u32,
    m2: Map<Seq<char>, u32>,
    i2: u32,
    k1: Seq<char>,
    k2: Seq<char>,
    s: Seq<char>,
)
    requires
        index <= VAR_CEILING,
        var_pass_step(rest, m, index, s) == Some((m2, i2)),
        !m.contains_key(k1),
        m2.contains_key(k1),
        !m.contains_key(k2),
        m2.contains_key(k2),
        s != k2,
        k1 != k2,
        k1.len() > 0,
        !is_numeric_seq(k1),
        s == k1 || first_use(rest, k1) < first_use(rest, k2),
    ensures
        m2[k1] < m2[k2],
    decreases rest.len(), 1int,
{
    if s.len() == 0 || is_numeric_seq(s) || m.contains_key(s) {
        lemma_variable_order(rest, m, index, m2, i2, k1, k2);
    } else if index != VAR_CEILING {
        if s == k1 {
            let m1 = m.insert(s, index);
            lemma_var_pass_preserves(rest, m1, (index + 1) as u32, m2, i2, k1);
            lemma_var_pass_range(rest, m1, (index + 1) as u32, m2, i2, k2);
        } else {
            lemma_variable_order(rest, m.insert(s, index), (index + 1) as u32, m2, i2, k1, k2);
        }
    }
}

/// A label declared at position `i`, and not declared again later, is
/// entered at the count of non-label lines before it — its instruction
/// address, not its line number — offset by the starting counter.
pub proof fn lemma_label_address(
    lines: Seq<AsmLineView>,
    m: Map<Seq<char>, u32>,
    rom: u32,
    i: int,
    name: Seq<char>,
)
    requires
        0 <= i < lines.len(),
        lines[i] == AsmLineView::LCommand(name),
        forall|j: int| i < j < lines.len() ==> #[trigger] lines[j] != AsmLineView::LCommand(name),
        rom + rom_count(lines.take(i)) <= u32::MAX,
    ensures
        label_pass(lines, m, rom).contains_key(name),
        label_pass(lines, m, rom)[name] == rom + rom_count(lines.take(i)),
    decreases lines.len(),
{
    let rest = lines.drop_first();
    if i == 0 {
        assert(lines.take(0) =~= Seq::<AsmLineView>::empty());
        assert(!declares_label(rest, name)) by {
            if declares_label(rest, name) {
                let j = choose|j: int|
                    0 <= j < rest.len() && rest[j] == AsmLineView::LCommand(name);
                assert(lines[j + 1] == AsmLineView::LCommand(name));
            }
        }
        lemma_label_pass_preserves(rest, m.insert(name, rom), rom, name);
    } else {
        assert(lines.take(i).drop_first() =~= rest.take(i - 1));
        assert(lines.take(i)[0] == lines[0]);
        assert(rest[i - 1] == lines[i]);
        assert(forall|j: int|
            i - 1 < j < rest.len() ==> #[trigger] rest[j] != AsmLineView::LCommand(name)) by {
            assert(forall|j: int|
                i - 1 < j < rest.len() ==> rest[j] == #[trigger] lines[j + 1]);
        }
        match lines[0] {
            AsmLineView::LCommand(other) => {
                lemma_label_address(rest, m.insert(other, rom), rom, i - 1, name);
            },
            _ => {
                lemma_label_address(rest, m, (rom + 1) as u32, i - 1, name);
            },
        }
    }
}

/// The predeclared entries carry their fixed documented addresses, and
/// none of their names reads as a number.
#[verifier::rlimit(60)]
pub proof fn lemma_predefined_values()
    ensures
        predefined_table().contains_key("SP"@) && predefined_table()["SP"@] == 0,
        predefined_table().contains_key("LCL"@) && predefined_table()["LCL"@] == 1,
        predefined_table().contains_key("ARG"@) && predefined_table()["ARG"@] == 2,
        predefined_table().contains_key("THIS"@) && predefined_table()["THIS"@] == 3,
        predefined_table().contains_key("THAT"@) && predefined_table()["THAT"@] == 4,
        predefined_table().contains_key("R0"@) && predefined_table()["R0"@] == 0,
        predefined_table().contains_key("R1"@) && predefined_table()["R1"@] == 1,
        predefined_table().contains_key("R2"@) && predefined_table()["R2"@] == 2,
        predefined_table().contains_key("R3"@) && predefined_table()["R3"@] == 3,
        predefined_table().contains_key("R4"@) && predefined_table()["R4"@] == 4,
        predefined_table().contains_key("R5"@) && predefined_table()["R5"@] == 5,
        predefined_table().contains_key("R6"@) && predefined_table()["R6"@] == 6,
        predefined_table().contains_key("R7"@) && predefined_table()["R7"@] == 7,
        predefined_table().contains_key("R8"@) && predefined_table()["R8"@] == 8,
        predefined_table().contains_key("R9"@) && predefined_table()["R9"@] == 9,
        predefined_table().contains_key("R10"@) && predefined_table()["R10"@] == 10,
        predefined_table().contains_key("R11"@) && predefined_table()["R11"@] == 11,
        predefined_table().contains_key("R12"@) && predefined_table()["R12"@] == 12,
        predefined_table().contains_key("R13"@) && predefined_table()["R13"@] == 13,
        predefined_table().contains_key("R14"@) && predefined_table()["R14"@] == 14,
        predefined_table().contains_key("R15"@) && predefined_table()["R15"@] == 15,
        predefined_table().contains_key("SCREEN"@) && predefined_table()["SCREEN"@] == 16384,
        predefined_table().contains_key("KBD"@) && predefined_table()["KBD"@] == 24576,
        !is_numeric_seq("SP"@),
        !is_numeric_seq("LCL"@),
        !is_numeric_seq("ARG"@),
        !is_numeric_seq("THIS"@),
        !is_numeric_seq("THAT"@),
        !is_numeric_seq("R0"@),
        !is_numeric_seq("R1"@),
        !is_numeric_seq("R2"@),
        !is_numeric_seq("R3"@),
        !is_numeric_seq("R4"@),
        !is_numeric_seq("R5"@),
        !is_numeric_seq("R6"@),
        !is_numeric_seq("R7"@),
        !is_numeric_seq("R8"@),
        !is_numeric_seq("R9"@),
        !is_numeric_seq("R10"@),
        !is_numeric_seq("R11"@),
        !is_numeric_seq("R12"@),
        !is_numeric_seq("R13"@),
        !is_numeric_seq("R14"@),
        !is_numeric_seq("R15"@),
        !is_numeric_seq("SCREEN"@),
        !is_numeric_seq("KBD"@),
{
    reveal_strlit("SP");
    reveal_strlit("LCL");
    reveal_strlit("ARG");
    reveal_strlit("THIS");
    reveal_strlit("THAT");
    reveal_strlit("R0");
    reveal_strlit("R1");
    reveal_strlit("R2");
    reveal_strlit("R3");
    reveal_strlit("R4");
    reveal_strlit("R5");
    reveal_strlit("R6");
    reveal_strlit("R7");
    reveal_strlit("R8");
    reveal_strlit("R9");
    reveal_strlit("R10");
    reveal_strlit("R11");
    reveal_strlit("R12");
    reveal_strlit("R13");
    reveal_strlit("R14");
    reveal_strlit("R15");
    reveal_strlit("SCREEN");
    reveal_strlit("KBD");
    assert("SP"@.len() == 2);
    assert("SP"@[0] == 'S');
    assert("SP"@[1] == 'P');
    assert("LCL"@.len() == 3);
    assert("LCL"@[0] == 'L');
    assert("LCL"@[1] == 'C');
    assert("LCL"@[2] == 'L');
    assert("ARG"@.len() == 3);
    assert("ARG"@[0] == 'A');
    assert("ARG"@[1] == 'R');
    assert("ARG"@[2] == 'G');
    assert("THIS"@.len() == 4);
    assert("THIS"@[0] == 'T');
    assert("THIS"@[1] == 'H');
    assert("THIS"@[2] == 'I');
    assert("THIS"@[3] == 'S');
    assert("THAT"@.len() == 4);
    assert("THAT"@[0] == 'T');
    assert("THAT"@[1] == 'H');
    assert("THAT"@[2] == 'A');
    assert("THAT"@[3] == 'T');
    assert("R0"@.len() == 2);
    assert("R0"@[0] == 'R');
    assert("R0"@[1] == '0');
    assert("R1"@.len() == 2);
    assert("R1"@[0] == 'R');
    assert("R1"@[1] == '1');
    assert("R2"@.len() == 2);
    assert("R2"@[0] == 'R');
    assert("R2"@[1] == '2');
    assert("R3"@.len() == 2);
    assert("R3"@[0] == 'R');
    assert("R3"@[1] == '3');
    assert("R4"@.len() == 2);
    assert("R4"@[0] == 'R');
    assert("R4"@[1] == '4');
    assert("R5"@.len() == 2);
    assert("R5"@[0] == 'R');
    assert("R5"@[1] == '5');
    assert("R6"@.len() == 2);
    assert("R6"@[0] == 'R');
    assert("R6"@[1] == '6');
    assert("R7"@.len() == 2);
    assert("R7"@[0] == 'R');
    assert("R7"@[1] == '7');
    assert("R8"@.len() == 2);
    assert("R8"@[0] == 'R');
    assert("R8"@[1] == '8');
    assert("R9"@.len() == 2);
    assert("R9"@[0] == 'R');
    assert("R9"@[1] == '9');
    assert("R10"@.len() == 3);
    assert("R10"@[0] == 'R');
    assert("R10"@[1] == '1');
    assert("R10"@[2] == '0');
    assert("R11"@.len() == 3);
    assert("R11"@[0] == 'R');
    assert("R11"@[1] == '1');
    assert("R11"@[2] == '1');
    assert("R12"@.len() == 3);
    assert("R12"@[0] == 'R');
    assert("R12"@[1] == '1');
    assert("R12"@[2] == '2');
    assert("R13"@.len() == 3);
    assert("R13"@[0] == 'R');
    assert("R13"@[1] == '1');
    assert("R13"@[2] == '3');
    assert("R14"@.len() == 3);
    assert("R14"@[0] == 'R');
    assert("R14"@[1] == '1');
    assert("R14"@[2] == '4');
    assert("R15"@.len() == 3);
    assert("R15"@[0] == 'R');
    assert("R15"@[1] == '1');
    assert("R15"@[2] == '5');
    assert("SCREEN"@.len() == 6);
    assert("SCREEN"@[0] == 'S');
    assert("SCREEN"@[1] == 'C');
    assert("SCREEN"@[2] == 'R');
    assert("SCREEN"@[3] == 'E');
    assert("SCREEN"@[4] == 'E');
    assert("SCREEN"@[5] == 'N');
    assert("KBD"@.len() == 3);
    assert("KBD"@[0] == 'K');
    assert("KBD"@[1] == 'B');
    assert("KBD"@[2] == 'D');
    assert(predefined_table().contains_key("SP"@) && predefined_table()["SP"@] == 0);
    assert(predefined_table().contains_key("LCL"@) && predefined_table()["LCL"@] == 1);
    assert(predefined_table().contains_key("ARG"@) && predefined_table()["ARG"@] == 2);
    assert(predefined_table().contains_key("THIS"@) && predefined_table()["THIS"@] == 3);
    assert(predefined_table().contains_key("THAT"@) && predefined_table()["THAT"@] == 4);
    assert(predefined_table().contains_key("R0"@) && predefined_table()["R0"@] == 0);
    assert(predefined_table().contains_key("R1"@) && predefined_table()["R1"@] == 1);
    assert(predefined_table().contains_key("R2"@) && predefined_table()["R2"@] == 2);
    assert(predefined_table().contains_key("R3"@) && predefined_table()["R3"@] == 3);
    assert(predefined_table().contains_key("R4"@) && predefined_table()["R4"@] == 4);
    assert(predefined_table().contains_key("R5"@) && predefined_table()["R5"@] == 5);
    assert(predefined_table().contains_key("R6"@) && predefined_table()["R6"@] == 6);
    assert(predefined_table().contains_key("R7"@) && predefined_table()["R7"@] == 7);
    assert(predefined_table().contains_key("R8"@) && predefined_table()["R8"@] == 8);
    assert(predefined_table().contains_key("R9"@) && predefined_table()["R9"@] == 9);
    assert(predefined_table().contains_key("R10"@) && predefined_table()["R10"@] == 10);
    assert(predefined_table().contains_key("R11"@) && predefined_table()["R11"@] == 11);
    assert(predefined_table().contains_key("R12"@) && predefined_table()["R12"@] == 12);
    assert(predefined_table().contains_key("R13"@) && predefined_table()["R13"@] == 13);
    assert(predefined_table().contains_key("R14"@) && predefined_table()["R14"@] == 14);
    assert(predefined_table().contains_key("R15"@) && predefined_table()["R15"@] == 15);
    assert(predefined_table().contains_key("SCREEN"@) && predefined_table()["SCREEN"@] == 16384);
    assert(predefined_table().contains_key("KBD"@) && predefined_table()["KBD"@] == 24576);
    assert(!is_numeric_seq("SP"@)) by {
        reveal_strlit("SP");
        assert(!is_digit_char("SP"@[0]));
    }
    assert(!is_numeric_seq("LCL"@)) by {
        reveal_strlit("LCL");
        assert(!is_digit_char("LCL"@[0]));
    }
    assert(!is_numeric_seq("ARG"@)) by {
        reveal_strlit("ARG");
        assert(!is_digit_char("ARG"@[0]));
    }
    assert(!is_numeric_seq("THIS"@)) by {
        reveal_strlit("THIS");
        assert(!is_digit_char("THIS"@[0]));
    }
    assert(!is_numeric_seq("THAT"@)) by {
        reveal_strlit("THAT");
        assert(!is_digit_char("THAT"@[0]));
    }
    assert(!is_numeric_seq("R0"@)) by {
        reveal_strlit("R0");
        assert(!is_digit_char("R0"@[0]));
    }
    assert(!is_numeric_seq("R1"@)) by {
        reveal_strlit("R1");
        assert(!is_digit_char("R1"@[0]));
    }
    assert(!is_numeric_seq("R2"@)) by {
        reveal_strlit("R2");
        assert(!is_digit_char("R2"@[0]));
    }
    assert(!is_numeric_seq("R3"@)) by {
        reveal_strlit("R3");
        assert(!is_digit_char("R3"@[0]));
    }
    assert(!is_numeric_seq("R4"@)) by {
        reveal_strlit("R4");
        assert(!is_digit_char("R4"@[0]));
    }
    assert(!is_numeric_seq("R5"@)) by {
        reveal_strlit("R5");
        assert(!is_digit_char("R5"@[0]));
    }
    assert(!is_numeric_seq("R6"@)) by {
        reveal_strlit("R6");
        assert(!is_digit_char("R6"@[0]));
    }
    assert(!is_numeric_seq("R7"@)) by {
        reveal_strlit("R7");
        assert(!is_digit_char("R7"@[0]));
    }
    assert(!is_numeric_seq("R8"@)) by {
        reveal_strlit("R8");
        assert(!is_digit_char("R8"@[0]));
    }
    assert(!is_numeric_seq("R9"@)) by {
        reveal_strlit("R9");
        assert(!is_digit_char("R9"@[0]));
    }
    assert(!is_numeric_seq("R10"@)) by {
        reveal_strlit("R10");
        assert(!is_digit_char("R10"@[0]));
    }
    assert(!is_numeric_seq("R11"@)) by {
        reveal_strlit("R11");
        assert(!is_digit_char("R11"@[0]));
    }
    assert(!is_numeric_seq("R12"@)) by {
        reveal_strlit("R12");
        assert(!is_digit_char("R12"@[0]));
    }
    assert(!is_numeric_seq("R13"@)) by {
        reveal_strlit("R13");
        assert(!is_digit_char("R13"@[0]));
    }
    assert(!is_numeric_seq("R14"@)) by {
        reveal_strlit("R14");
        assert(!is_digit_char("R14"@[0]));
    }
    assert(!is_numeric_seq("R15"@)) by {
        reveal_strlit("R15");
        assert(!is_digit_char("R15"@[0]));
    }
    assert(!is_numeric_seq("SCREEN"@)) by {
        reveal_strlit("SCREEN");
        assert(!is_digit_char("SCREEN"@[0]));
    }
    assert(!is_numeric_seq("KBD"@)) by {
        reveal_strlit("KBD");
        assert(!is_digit_char("KBD"@[0]));
    }
}

/// A predeclared symbol resolves to its predeclared address in any
/// table the two passes build, whatever else the program holds, as long
/// as no label declaration reuses a predeclared name: the label pass
/// then leaves the entry alone, and the variable pass never touches a
/// name already present.
pub proof fn lemma_predeclared_resolved(
    lines: Seq<AsmLineView>,
    m2: Map<Seq<char>, u32>,
    i2: u32,
    name: Seq<char>,
    addr: u32,
)
    requires
        built_table(lines) == Some((m2, i2)),
        forall|i: int|
            0 <= i < lines.len() ==> !(#[trigger] lines[i] matches AsmLineView::LCommand(l)
                && predefined_table().contains_key(l)),
        predefined_table().contains_key(name),
        predefined_table()[name] == addr,
        !is_numeric_seq(name),
    ensures
        resolve(m2, name) == Some(addr),
{
    assert(!declares_label(lines, name)) by {
        if declares_label(lines, name) {
            let i = choose|i: int|
                0 <= i < lines.len() && lines[i] == AsmLineView::LCommand(name);
            assert(!(lines[i] matches AsmLineView::LCommand(l) && predefined_table().contains_key(
                l,
            )));
        }
    }
    let m1 = label_pass(lines, predefined_table(), 0);
    lemma_label_pass_preserves(lines, predefined_table(), 0, name);
    lemma_var_pass_preserves(lines, m1, FIRST_VAR, m2, i2, name);
}

/// A purely numeric address target resolves to its own parsed value,
/// whatever the table holds: the table is never consulted for it.
pub proof fn lemma_numeric_resolve(m: Map<Seq<char>, u32>, s: Seq<char>)
    requires
        is_numeric_seq(s),
        numeric_value(s) <= u32::MAX,
    ensures
        resolve(m, s) == Some(numeric_value(s) as u32),
{
}


/// After a completed variable pass, every address-instruction target is
/// numeric, empty, or present in the final table.
pub proof fn lemma_var_pass_covers(
    lines: Seq<AsmLineView>,
    m: Map<Seq<char>, u32>,
    index: u32,
    m2: Map<Seq<char>, u32>,
    i2: u32,
    i: int,
)
    requires
        var_pass(lines, m, index) == Some((m2, i2)),
        0 <= i < lines.len(),
    ensures
        match lines[i] {
            AsmLineView::ACommand(s) => s.len() == 0 || is_numeric_seq(s) || m2.contains_key(s),
            _ => true,
        },
    decreases lines.len(), 0int,
{
    let rest = lines.drop_first();
    match lines[0] {
        AsmLineView::CCommand(..) => {
            if i > 0 {
                lemma_var_pass_covers(rest, m, index, m2, i2, i - 1);
            }
        },
        AsmLineView::ACommand(s) => {
            lemma_var_pass_covers_step(rest, m, index, m2, i2, s);
            if i > 0 {
                lemma_var_pass_covers_at(rest, m, index, m2, i2, s, i - 1);
            }
        },
        AsmLineView::LCommand(s) => {
            if i > 0 {
                lemma_var_pass_covers_at(rest, m, index, m2, i2, s, i - 1);
            }
        },
    }
}

/// The symbol offered at the head of the variable pass ends numeric,
/// empty, or present in the final table.
proof fn lemma_var_pass_covers_step(
    rest: Seq<AsmLineView>,
    m: Map<Seq<char>, u32>,
    index: u32,
    m2: Map<Seq<char>, u32>,
    i2: u32,
    s: Seq<char>,
)
    requires
        var_pass_step(rest, m, index, s) == Some((m2, i2)),
    ensures
        s.len() == 0 || is_numeric_seq(s) || m2.contains_key(s),
    decreases rest.len(),
{
    if s.len() == 0 || is_numeric_seq(s) {
    } else if m.contains_key(s) {
        lemma_var_pass_preserves(rest, m, index, m2, i2, s);
    } else if index != VAR_CEILING {
        lemma_var_pass_preserves(rest, m.insert(s, index), (index + 1) as u32, m2, i2, s);
    }
}

/// Coverage of a later line, across one offered symbol at the head.
proof fn lemma_var_pass_covers_at(
    rest: Seq<AsmLineView>,
    m: Map<Seq<char>, u32>,
    index: u32,
    m2: Map<Seq<char>, u32>,
    i2: u32,
    s: Seq<char>,
    i: int,
)
    requires
        var_pass_step(rest, m, index, s) == Some((m2, i2)),
        0 <= i < rest.len(),
    ensures
        match rest[i] {
            AsmLineView::ACommand(t) => t.len() == 0 || is_numeric_seq(t) || m2.contains_key(t),
            _ => true,
        },
    decreases rest.len(), 1int,
{
    if s.len() == 0 || is_numeric_seq(s) || m.contains_key(s) {
        lemma_var_pass_covers(rest, m, index, m2, i2, i);
    } else if index != VAR_CEILING {
        lemma_var_pass_covers(rest, m.insert(s, index), (index + 1) as u32, m2, i2, i);
    }
}

/// Encoding a program whose address targets are all valid symbols and
/// all covered by the table never reports an unresolved symbol: the
/// only errors left are range errors.
pub proof fn lemma_encode_all_no_unresolved(lines: Seq<AsmLineView>, m: Map<Seq<char>, u32>)
    requires
        forall|i: int|
            0 <= i < lines.len() ==> line_symbols_ok(#[trigger] lines[i]),
        forall|i: int|
            0 <= i < lines.len() ==> match #[trigger] lines[i] {
                AsmLineView::ACommand(s) => s.len() == 0 || is_numeric_seq(s) || m.contains_key(s),
                _ => true,
            },
    ensures
        !(encode_all(lines, m) matches Err(ErrorView::UnresolvedSymbol(_))),
    decreases lines.len(),
{
    if lines.len() > 0 {
        let rest = lines.drop_first();
        assert(forall|i: int| 0 <= i < rest.len() ==> #[trigger] rest[i] == lines[i + 1]);
        lemma_encode_all_no_unresolved(rest, m);
        assert(line_symbols_ok(lines[0]));
    }
}


/// In the pipeline's label pass, which starts counting at zero over the
/// predeclared table, a label's address equals the count of non-label
/// lines before its declaration — not its line number.  For a
/// non-numeric label name, resolving through the table returns exactly
/// that address; a purely numeric label name is resolved as its own
/// value instead, bypassing the table.
pub proof fn lemma_label_address_in_pipeline(lines: Seq<AsmLineView>, i: int, name: Seq<char>)
    requires
        0 <= i < lines.len(),
        lines[i] == AsmLineView::LCommand(name),
        forall|j: int| i < j < lines.len() ==> #[trigger] lines[j] != AsmLineView::LCommand(name),
        rom_count(lines.take(i)) <= u32::MAX,
    ensures
        label_pass(lines, predefined_table(), 0).contains_key(name),
        label_pass(lines, predefined_table(), 0)[name] == rom_count(lines.take(i)),
        !is_numeric_seq(name) ==> (resolve(label_pass(lines, predefined_table(), 0), name)
            matches Some(a) && a == rom_count(lines.take(i))),
{
    lemma_label_address(lines, predefined_table(), 0, i, name);
}

/// In the pipeline's variable pass, which starts its cursor at 16 over
/// the label-pass table, every fresh symbol gets an address of at least
/// 16, the symbol used first gets the smaller address, and an address
/// once assigned never changes.  A fresh symbol is necessarily
/// non-numeric, so resolving it returns exactly its assigned address.
pub proof fn lemma_variable_addresses_in_pipeline(
    lines: Seq<AsmLineView>,
    m2: Map<Seq<char>, u32>,
    i2: u32,
    k1: Seq<char>,
    k2: Seq<char>,
)
    requires
        built_table(lines) == Some((m2, i2)),
        !label_pass(lines, predefined_table(), 0).contains_key(k1),
        m2.contains_key(k1),
        !label_pass(lines, predefined_table(), 0).contains_key(k2),
        m2.contains_key(k2),
        first_use(lines, k1) < first_use(lines, k2),
    ensures
        FIRST_VAR <= m2[k1] < m2[k2],
        resolve(m2, k1) == Some(m2[k1]),
        resolve(m2, k2) == Some(m2[k2]),
{
    let m1 = label_pass(lines, predefined_table(), 0);
    lemma_var_pass_range(lines, m1, FIRST_VAR, m2, i2, k1);
    lemma_variable_order(lines, m1, FIRST_VAR, m2, i2, k1, k2);
    lemma_var_pass_new_keys(lines, m1, FIRST_VAR, m2, i2, k1);
    lemma_var_pass_new_keys(lines, m1, FIRST_VAR, m2, i2, k2);
}

/// A finished prefix of output words in front of the rest of an
/// encoding.
pub open spec fn with_prefix(p: Seq<Seq<char>>, r: Result<Seq<Seq<char>>, ErrorView>) -> Result<
    Seq<Seq<char>>,
    ErrorView,
> {
    match r {
        Ok(t) => Ok(p + t),
        Err(e) => Err(e),
    }
}

} // verus!
