//! The decoder front end: a registry mapping each opcode to its instruction
//! format and to the (shared) list of reservation stations implementing it,
//! plus the translation of one text line into a decoded instruction.

use vstd::prelude::*;

use crate::util::str_eq;

verus! {

/// The expected kind of one argument position of an instruction format.
///
/// `Register` and `Writeback` accept each other: a register token standing in
/// a writeback position is valid, and the other way round.
#[derive(Copy, Clone, PartialEq, Eq, Structural, Debug)]
pub enum TokenType {
    Register,
    Writeback,
    Immediate,
}

/// One decoded argument: a register index or an immediate value.
#[derive(Eq, PartialEq, Structural, Debug, Copy, Clone)]
pub enum ArgType {
    Reg(usize),
    Imm(u32),
}

/// The matching table between an actual token kind and the expected one:
/// `Register` and `Writeback` are mutually acceptable, everything else must
/// match exactly.
pub open spec fn spec_matches(actual: TokenType, expect: TokenType) -> bool {
    actual == expect || (actual == TokenType::Register && expect == TokenType::Writeback) || (
    actual == TokenType::Writeback && expect == TokenType::Register)
}

/// The token kind of a scanned argument.
pub open spec fn spec_token_type_of(arg: ArgType) -> TokenType {
    match arg {
        ArgType::Reg(_) => TokenType::Register,
        ArgType::Imm(_) => TokenType::Immediate,
    }
}

impl TokenType {
    fn from(arg: ArgType) -> (r: Self)
        ensures
            r == spec_token_type_of(arg),
    {
        match arg {
            ArgType::Reg(_) => TokenType::Register,
            ArgType::Imm(_) => TokenType::Immediate,
        }
    }

    /// Whether an actual token kind is acceptable where `other` is expected.
    pub fn matches(&self, other: &Self) -> (r: bool)
        ensures
            r == spec_matches(*self, *other),
    {
        match (self, other) {
            (TokenType::Register, TokenType::Writeback) => true,
            (TokenType::Writeback, TokenType::Register) => true,
            (s, o) => *s == *o,
        }
    }
}

/// Spec-level contents of an instruction format.
pub ghost struct FormatV {
    pub name: Seq<char>,
    pub syntax: Seq<TokenType>,
}

/// The syntax of one instruction: its opcode and the ordered token kinds of
/// its argument positions.
#[derive(Debug)]
pub struct InstFormat {
    name: String,
    syntax: Vec<TokenType>,
}

impl View for InstFormat {
    type V = FormatV;

    closed spec fn view(&self) -> FormatV {
        FormatV { name: self.name@, syntax: self.syntax@ }
    }
}

impl Clone for InstFormat {
    fn clone(&self) -> (r: Self)
        ensures
            r@ == self@,
    {
        Self { name: self.name.clone(), syntax: self.syntax.clone() }
    }
}

impl InstFormat {
    /// Start building a format for the opcode `name`.
    pub fn create(name: &str) -> (r: InstFormatCreater)
        ensures
            r@.name == name@,
            r@.syntax == Seq::<TokenType>::empty(),
    {
        InstFormatCreater { body: InstFormat { name: name.to_owned(), syntax: Vec::new() } }
    }
}

/// Builder of an [`InstFormat`]: token kinds are appended in argument order.
#[derive(Debug)]
pub struct InstFormatCreater {
    body: InstFormat,
}

impl View for InstFormatCreater {
    type V = FormatV;

    closed spec fn view(&self) -> FormatV {
        self.body@
    }
}

impl InstFormatCreater {
    /// Append one token kind; the order of the calls is the argument order.
    pub fn add_syntax(self, token_type: TokenType) -> (r: Self)
        ensures
            r@.name == self@.name,
            r@.syntax == self@.syntax.push(token_type),
    {
        let InstFormatCreater { body } = self;
        let InstFormat { name, mut syntax } = body;
        syntax.push(token_type);
        InstFormatCreater { body: InstFormat { name, syntax } }
    }

    /// Finish the format.
    pub fn done(self) -> (r: InstFormat)
        ensures
            r@ == self@,
    {
        self.body
    }
}

/// Whether `c` separates tokens: space, comma, parentheses, colon, newline.
pub open spec fn spec_is_delim(c: char) -> bool {
    c == ' ' || c == ',' || c == '(' || c == ')' || c == ':' || c == '\n'
}

/// The tokens of `s[i..]`, given that the current (possibly empty) token
/// started at `begin`: maximal delimiter-free substrings, in order, empties
/// dropped.
pub open spec fn spec_tokens_from(s: Seq<char>, i: int, begin: int) -> Seq<Seq<char>>
    decreases s.len() - i,
{
    if i < 0 || begin < 0 || begin > i {
        Seq::empty()
    } else if i >= s.len() {
        if begin < s.len() {
            seq![s.subrange(begin, s.len() as int)]
        } else {
            Seq::empty()
        }
    } else if spec_is_delim(s[i]) {
        (if begin < i {
            seq![s.subrange(begin, i)]
        } else {
            Seq::empty()
        }) + spec_tokens_from(s, i + 1, i + 1)
    } else {
        spec_tokens_from(s, i + 1, begin)
    }
}

/// The tokens of `s`.
pub open spec fn spec_tokens(s: Seq<char>) -> Seq<Seq<char>> {
    spec_tokens_from(s, 0, 0)
}

/// Sharing is observable: an opcode shares a station list with itself
/// exactly when it is registered at all.
pub proof fn lemma_shares_reflexive(d: &Decoder, op: Seq<char>)
    requires
        d.wf(),
    ensures
        d.spec_shares_list(op, op) <==> d.spec_station_names(op) is Some,
{
    if assoc_idx(d.stations@, op) is Some {
        lemma_assoc_idx_props(d.stations@, op);
    }
}

/// Separate a raw string into words at the delimiters.
pub fn text_slicer<'a>(txt: &'a str) -> (r: Vec<&'a str>)
    ensures
        r@.map_values(|t: &str| t@) == spec_tokens(txt@),
{
    let len = txt.unicode_len();
    let mut v: Vec<&'a str> = Vec::new();
    let mut begin: usize = 0;
    let mut i: usize = 0;
    while i < len
        invariant
            len as nat == txt@.len(),
            begin <= i <= len,
            spec_tokens(txt@) == v@.map_values(|t: &str| t@) + spec_tokens_from(
                txt@,
                i as int,
                begin as int,
            ),
        decreases len - i,
    {
        let c = txt.get_char(i);
        let ghost prev = v@.map_values(|t: &str| t@);
        if is_delim(c) {
            if begin != i {
                let tok = txt.substring_char(begin, i);
                v.push(tok);
                proof {
                    assert(v@.map_values(|t: &str| t@) =~= prev.push(tok@));
                }
            }
            begin = i + 1;
        }
        i = i + 1;
    }
    if begin < len {
        let ghost prev = v@.map_values(|t: &str| t@);
        let tok = txt.substring_char(begin, len);
        v.push(tok);
        proof {
            assert(v@.map_values(|t: &str| t@) =~= prev.push(tok@));
        }
    }
    v
}

fn is_delim(c: char) -> (r: bool)
    ensures
        r == spec_is_delim(c),
{
    c == ' ' || c == ',' || c == '(' || c == ')' || c == ':' || c == '\n'
}

/// Whether `c` is a decimal digit.
pub open spec fn spec_is_digit(c: char) -> bool {
    48 <= c as int <= 57
}

/// The numeric value of the digit `c`.
pub open spec fn spec_digit_val(c: char) -> nat {
    (c as int - 48) as nat
}

/// The value of the digit string `s`, most significant digit first.
pub open spec fn spec_dec_val(s: Seq<char>) -> nat
    decreases s.len(),
{
    if s.len() == 0 {
        0
    } else {
        spec_dec_val(s.drop_last()) * 10 + spec_digit_val(s.last())
    }
}

/// The number denoted by `s`: defined exactly when `s` is one or more decimal
/// digits and nothing else.
pub open spec fn spec_parse_dec(s: Seq<char>) -> Option<nat> {
    if s.len() > 0 && (forall|i: int| 0 <= i < s.len() ==> spec_is_digit(#[trigger] s[i])) {
        Some(spec_dec_val(s))
    } else {
        None
    }
}

/// Sentinel returned by [`parse_dec`] for a well-formed number above
/// `u32::MAX`.
pub open spec fn dec_too_big() -> u64 {
    0x1_0000_0000
}

/// Parse `s[from..]` as an unsigned decimal number.  A value above `u32::MAX`
/// comes back as the sentinel `0x1_0000_0000`.
fn parse_dec(s: &str, from: usize) -> (r: Option<u64>)
    requires
        from <= s@.len(),
    ensures
        spec_parse_dec(s@.skip(from as int)) is None <==> r is None,
        (match spec_parse_dec(s@.skip(from as int)) {
            Some(v) => if v <= u32::MAX as nat {
                r == Some(v as u64)
            } else {
                r == Some(dec_too_big())
            },
            None => r is None,
        }),
{
    let len = s.unicode_len();
    if from >= len {
        return None;
    }
    let mut acc: u64 = 0;
    let mut i: usize = from;
    while i < len
        invariant
            len as nat == s@.len(),
            from <= i <= len,
            from < len,
            forall|j: int| from <= j < i ==> spec_is_digit(#[trigger] s@[j]),
            ({
                let v = spec_dec_val(s@.subrange(from as int, i as int));
                if v <= u32::MAX as nat {
                    acc == v
                } else {
                    acc == dec_too_big()
                }
            }),
        decreases len - i,
    {
        let c = s.get_char(i);
        let cu = c as u32;
        if cu < 48 || cu > 57 {
            proof {
                assert(s@.skip(from as int)[i - from] == s@[i as int]);
            }
            return None;
        }
        let d = (cu - 48) as u64;
        let ghost prefix = s@.subrange(from as int, i as int);
        let ghost full = s@.subrange(from as int, i as int + 1);
        proof {
            assert(full.drop_last() =~= prefix);
            assert(full.last() == s@[i as int]);
            if spec_dec_val(prefix) > u32::MAX as nat {
                assert(spec_dec_val(full) == spec_dec_val(prefix) * 10 + spec_digit_val(
                    s@[i as int],
                ));
                assert(spec_dec_val(prefix) * 10 >= spec_dec_val(prefix)) by (nonlinear_arith)
                    requires
                        spec_dec_val(prefix) >= 0,
                ;
            }
        }
        if acc >= 0x1_0000_0000 {
            acc = 0x1_0000_0000;
        } else {
            acc = acc * 10 + d;
            if acc > 0xffff_ffff {
                acc = 0x1_0000_0000;
            }
        }
        i = i + 1;
    }
    proof {
        assert(s@.subrange(from as int, len as int) =~= s@.skip(from as int));
        assert(spec_parse_dec(s@.skip(from as int)) is Some);
    }
    Some(acc)
}

/// The argument denoted by the token `t`: `r`/`R` followed by a register
/// index 0 to 15, or `#` followed by an unsigned 32-bit immediate.  Anything
/// else, including an out-of-range number, denotes no argument.
pub open spec fn spec_arg_scan(t: Seq<char>) -> Option<ArgType> {
    if t.len() == 0 {
        None
    } else if t[0] == 'r' || t[0] == 'R' {
        match spec_parse_dec(t.drop_first()) {
            Some(v) => if v < crate::register::register_count() {
                Some(ArgType::Reg(v as usize))
            } else {
                None
            },
            None => None,
        }
    } else if t[0] == '#' {
        match spec_parse_dec(t.drop_first()) {
            Some(v) => if v <= u32::MAX as nat {
                Some(ArgType::Imm(v as u32))
            } else {
                None
            },
            None => None,
        }
    } else {
        None
    }
}

/// Argument scanner: turn one argument token into an [`ArgType`].
fn arg_scan(row_arg: &str) -> (r: Result<ArgType, String>)
    ensures
        match spec_arg_scan(row_arg@) {
            Some(arg) => r == Ok::<ArgType, String>(arg),
            None => r is Err,
        },
{
    let len = row_arg.unicode_len();
    if len == 0 {
        return Err(String::from_str("Empty argument"));
    }
    let prefix = row_arg.get_char(0);
    proof {
        assert(row_arg@.skip(1) =~= row_arg@.drop_first());
    }
    if prefix == 'r' || prefix == 'R' {
        match parse_dec(row_arg, 1) {
            Some(idx) => if idx < 16 {
                Ok(ArgType::Reg(idx as usize))
            } else {
                Err(String::from_str("Register index out of range"))
            },
            None => Err(String::from_str("Expect an integer register index")),
        }
    } else if prefix == '#' {
        match parse_dec(row_arg, 1) {
            Some(val) => if val <= 0xffff_ffff {
                Ok(ArgType::Imm(val as u32))
            } else {
                Err(String::from_str("Immediate out of range"))
            },
            None => Err(String::from_str("Expect an integer immediate")),
        }
    } else {
        Err(String::from_str("Invalid argument prefix"))
    }
}

/// One step of argument validation, from position `i`, with the arguments and
/// writeback destination gathered so far.  A scanned token must match the
/// expected kind; a `Writeback` position consumes the token as the writeback
/// destination (the last one wins) instead of appending it.
pub open spec fn spec_decode_args_from(
    toks: Seq<Seq<char>>,
    syn: Seq<TokenType>,
    i: int,
    args: Seq<ArgType>,
    wb: Option<ArgType>,
) -> Option<(Seq<ArgType>, Option<ArgType>)>
    decreases toks.len() - i,
{
    if i < 0 || i >= toks.len() {
        Some((args, wb))
    } else {
        match spec_arg_scan(toks[i]) {
            None => None,
            Some(arg) => if !spec_matches(spec_token_type_of(arg), syn[i]) {
                None
            } else if syn[i] == TokenType::Writeback {
                spec_decode_args_from(toks, syn, i + 1, args, Some(arg))
            } else {
                spec_decode_args_from(toks, syn, i + 1, args.push(arg), wb)
            },
        }
    }
}

/// The decoded arguments of the token list `toks` against the syntax `syn`:
/// defined exactly when the arity matches, every token scans, and every token
/// kind matches the expected kind.
pub open spec fn spec_decode_args(toks: Seq<Seq<char>>, syn: Seq<TokenType>) -> Option<
    (Seq<ArgType>, Option<ArgType>),
> {
    if toks.len() != syn.len() {
        None
    } else {
        spec_decode_args_from(toks, syn, 0, Seq::empty(), None)
    }
}

/// Spec-level contents of a decoded instruction.
pub ghost struct DecodedV {
    pub name: Seq<char>,
    pub stations: Seq<Seq<char>>,
    pub args: Seq<ArgType>,
    pub writeback: Option<ArgType>,
}

/// One decoded instruction: opcode, the stations able to issue it, the typed
/// argument list, and the optional writeback destination.
#[derive(Debug)]
pub struct DecodedInst {
    name: String,
    stations: Vec<String>,
    args: Vec<ArgType>,
    writeback: Option<ArgType>,
}

impl View for DecodedInst {
    type V = DecodedV;

    closed spec fn view(&self) -> DecodedV {
        DecodedV {
            name: self.name@,
            stations: self.stations@.map_values(|s: String| s@),
            args: self.args@,
            writeback: self.writeback,
        }
    }
}

impl DecodedInst {
    pub fn name(&self) -> (r: String)
        ensures
            r@ == self@.name,
    {
        self.name.clone()
    }

    /// The names of the stations which can issue the instruction.
    pub fn stations(&self) -> (r: &Vec<String>)
        ensures
            r@.map_values(|s: String| s@) == self@.stations,
    {
        &self.stations
    }

    pub fn arguments(&self) -> (r: &Vec<ArgType>)
        ensures
            r@ == self@.args,
    {
        &self.args
    }

    pub fn writeback(&self) -> (r: Option<ArgType>)
        ensures
            r == self@.writeback,
    {
        self.writeback
    }
}

/// Number of registry entries carrying the handle `h`.
pub open spec fn count_handle(s: Seq<(String, usize)>, h: int) -> nat
    decreases s.len(),
{
    if s.len() == 0 {
        0
    } else {
        count_handle(s.drop_last(), h) + (if s.last().1 == h {
            1nat
        } else {
            0nat
        })
    }
}

proof fn lemma_count_handle_append(s: Seq<(String, usize)>, t: Seq<(String, usize)>, h: int)
    ensures
        count_handle(s + t, h) == count_handle(s, h) + count_handle(t, h),
    decreases t.len(),
{
    if t.len() == 0 {
        assert(s + t =~= s);
    } else {
        assert((s + t).drop_last() =~= s + t.drop_last());
        assert((s + t).last() == t.last());
        lemma_count_handle_append(s, t.drop_last(), h);
    }
}

proof fn lemma_count_handle_uniform(s: Seq<(String, usize)>, h: int)
    ensures
        (forall|i: int| 0 <= i < s.len() ==> (#[trigger] s[i]).1 == h) ==> count_handle(s, h)
            == s.len(),
        (forall|i: int| 0 <= i < s.len() ==> (#[trigger] s[i]).1 != h) ==> count_handle(s, h) == 0,
    decreases s.len(),
{
    if s.len() > 0 {
        lemma_count_handle_uniform(s.drop_last(), h);
        assert(forall|i: int| 0 <= i < s.len() - 1 ==> s.drop_last()[i] == s[i]);
    }
}

/// First index of `key` in the association list `s`, if any.
pub open spec fn assoc_idx<V>(s: Seq<(String, V)>, key: Seq<char>) -> Option<int>
    decreases s.len(),
{
    if s.len() == 0 {
        None
    } else if s[0].0@ == key {
        Some(0)
    } else {
        match assoc_idx(s.drop_first(), key) {
            Some(i) => Some(i + 1),
            None => None,
        }
    }
}

proof fn lemma_assoc_idx_found<V>(s: Seq<(String, V)>, key: Seq<char>, i: int)
    requires
        0 <= i < s.len(),
        s[i].0@ == key,
        forall|j: int| 0 <= j < i ==> s[j].0@ != key,
    ensures
        assoc_idx(s, key) == Some(i),
    decreases i,
{
    if i == 0 {
    } else {
        assert(s.drop_first()[i - 1] == s[i]);
        assert(forall|j: int| 0 <= j < i - 1 ==> s.drop_first()[j] == s[j + 1]);
        lemma_assoc_idx_found(s.drop_first(), key, i - 1);
    }
}

proof fn lemma_assoc_idx_none<V>(s: Seq<(String, V)>, key: Seq<char>)
    requires
        forall|j: int| 0 <= j < s.len() ==> s[j].0@ != key,
    ensures
        assoc_idx(s, key) is None,
    decreases s.len(),
{
    if s.len() > 0 {
        assert(forall|j: int| 0 <= j < s.len() - 1 ==> s.drop_first()[j] == s[j + 1]);
        lemma_assoc_idx_none(s.drop_first(), key);
    }
}

proof fn lemma_assoc_idx_props<V>(s: Seq<(String, V)>, key: Seq<char>)
    requires
        assoc_idx(s, key) is Some,
    ensures
        0 <= assoc_idx(s, key)->0 < s.len(),
        s[assoc_idx(s, key)->0].0@ == key,
        forall|j: int| 0 <= j < assoc_idx(s, key)->0 ==> s[j].0@ != key,
    decreases s.len(),
{
    if s.len() > 0 && s[0].0@ != key {
        lemma_assoc_idx_props(s.drop_first(), key);
        assert(forall|j: int| 0 <= j < s.len() - 1 ==> s.drop_first()[j] == s[j + 1]);
        let i = assoc_idx(s, key)->0;
        assert forall|j: int| 0 <= j < i implies s[j].0@ != key by {
            if j > 0 {
                assert(s.drop_first()[j - 1] == s[j]);
                assert(s.drop_first()[j - 1].0@ != key);
            }
        }
    }
}

/// The decoder: per-opcode syntax, and per-opcode shared lists of candidate
/// stations.  Opcode sets of different stations must be either disjoint or
/// identical; two stations implementing the same opcodes share one list.
#[derive(Debug)]
pub struct Decoder {
    /// Last decoded instruction, kept for state dumps.
    instruction: String,
    /// Opcode to handle into `lists`.
    stations: Vec<(String, usize)>,
    /// The shared station-name lists, indexed by handle.
    lists: Vec<Vec<String>>,
    /// Opcode to instruction format.
    formats: Vec<(String, InstFormat)>,
}

impl Decoder {
    /// Internal consistency: every handle points into `lists`, and every
    /// opcode with a registered format also has a station list.
    pub closed spec fn wf(&self) -> bool {
        (forall|i: int| 0 <= i < self.stations@.len() ==> self.stations@[i].1 < self.lists@.len())
            && (forall|op: Seq<char>|
            (#[trigger] assoc_idx(self.formats@, op)) is Some ==> assoc_idx(
                self.stations@,
                op,
            ) is Some)
    }

    /// The station names registered for opcode `op`, in registration order.
    pub closed spec fn spec_station_names(&self, op: Seq<char>) -> Option<Seq<Seq<char>>> {
        match assoc_idx(self.stations@, op) {
            Some(i) => if self.stations@[i].1 < self.lists@.len() {
                Some(self.lists@[self.stations@[i].1 as int]@.map_values(|s: String| s@))
            } else {
                None
            },
            None => None,
        }
    }

    /// Whether two opcodes share one station list.
    pub closed spec fn spec_shares_list(&self, op1: Seq<char>, op2: Seq<char>) -> bool {
        match (assoc_idx(self.stations@, op1), assoc_idx(self.stations@, op2)) {
            (Some(i), Some(j)) => self.stations@[i].1 == self.stations@[j].1,
            _ => false,
        }
    }

    /// The number of opcodes that share `op`'s station list (zero for an
    /// unregistered opcode).
    pub closed spec fn spec_shared_count(&self, op: Seq<char>) -> nat {
        match assoc_idx(self.stations@, op) {
            Some(i) => count_handle(self.stations@, self.stations@[i].1 as int),
            None => 0,
        }
    }

    /// The registered syntax of opcode `op`.
    pub closed spec fn spec_syntax(&self, op: Seq<char>) -> Option<Seq<TokenType>> {
        match assoc_idx(self.formats@, op) {
            Some(i) => Some(self.formats@[i].1@.syntax),
            None => None,
        }
    }

    /// The text handed to the last `decode` call.
    pub closed spec fn spec_last_instruction(&self) -> Seq<char> {
        self.instruction@
    }

    pub fn new() -> (r: Self)
        ensures
            r.wf(),
            forall|op: Seq<char>| r.spec_station_names(op) is None,
            forall|op: Seq<char>| r.spec_syntax(op) is None,
            r.spec_last_instruction() == Seq::<char>::empty(),
    {
        Self { instruction: String::new(), stations: Vec::new(), lists: Vec::new(), formats: Vec::new() }
    }

    /// Look up the opcode in the station registry; `None` when absent.
    fn find_station_handle(&self, op: &str) -> (r: Option<usize>)
        ensures
            match assoc_idx(self.stations@, op@) {
                Some(i) => r == Some(self.stations@[i].1),
                None => r is None,
            },
    {
        let n = self.stations.len();
        let mut i: usize = 0;
        while i < n
            invariant
                n == self.stations@.len(),
                i <= n,
                forall|j: int| 0 <= j < i ==> self.stations@[j].0@ != op@,
            decreases n - i,
        {
            if str_eq(self.stations[i].0.as_str(), op) {
                proof {
                    lemma_assoc_idx_found(self.stations@, op@, i as int);
                }
                return Some(self.stations[i].1);
            }
            i = i + 1;
        }
        proof {
            lemma_assoc_idx_none(self.stations@, op@);
        }
        None
    }

    /// Look up the opcode in the format registry; `None` when absent.
    fn find_format(&self, op: &str) -> (r: Option<&InstFormat>)
        ensures
            match assoc_idx(self.formats@, op@) {
                Some(i) => r matches Some(f) && *f == self.formats@[i].1,
                None => r is None,
            },
    {
        let n = self.formats.len();
        let mut i: usize = 0;
        while i < n
            invariant
                n == self.formats@.len(),
                i <= n,
                forall|j: int| 0 <= j < i ==> self.formats@[j].0@ != op@,
            decreases n - i,
        {
            if str_eq(self.formats[i].0.as_str(), op) {
                proof {
                    lemma_assoc_idx_found(self.formats@, op@, i as int);
                }
                return Some(&self.formats[i].1);
            }
            i = i + 1;
        }
        proof {
            lemma_assoc_idx_none(self.formats@, op@);
        }
        None
    }


    /// Count the registry entries that carry the handle `h`.
    fn count_with_handle(&self, h: usize) -> (r: usize)
        ensures
            r as nat == count_handle(self.stations@, h as int),
    {
        let n = self.stations.len();
        let mut cnt: usize = 0;
        let mut i: usize = 0;
        proof {
            assert(self.stations@.take(0) =~= Seq::<(String, usize)>::empty());
        }
        while i < n
            invariant
                n as nat == self.stations@.len(),
                i <= n,
                cnt <= i,
                cnt as nat == count_handle(self.stations@.take(i as int), h as int),
            decreases n - i,
        {
            proof {
                assert(self.stations@.take(i as int + 1).drop_last() =~= self.stations@.take(
                    i as int,
                ));
                assert(self.stations@.take(i as int + 1).last() == self.stations@[i as int]);
            }
            if self.stations[i].1 == h {
                cnt = cnt + 1;
            }
            i = i + 1;
        }
        proof {
            assert(self.stations@.take(n as int) =~= self.stations@);
        }
        cnt
    }

    /// Register every format of `inst_list` as implemented by `station`.
    ///
    /// Opcode sets of different stations must be either disjoint or
    /// identical.  If the first opcode is already known, the whole set must
    /// be identical to the registered one and `station` is appended to the
    /// one list shared by all those opcodes.  Otherwise every opcode must be
    /// new and distinct.  Any overlapping-but-unequal set (or one repeating
    /// an opcode) is refused and the registry is left unchanged.
    pub fn register(&mut self, inst_list: Vec<InstFormat>, station: String) -> (r: Result<
        (),
        String,
    >)
        requires
            old(self).wf(),
        ensures
            final(self).wf(),
            final(self).spec_last_instruction() == old(self).spec_last_instruction(),
            inst_list@.len() == 0 ==> r is Ok && *final(self) == *old(self),
            inst_list@.len() > 0 && old(self).spec_station_names(inst_list@[0]@.name) is Some
                ==> ((r is Ok <==> ((forall|i: int, j: int|
                0 <= i < j < inst_list@.len() ==> inst_list@[i]@.name != inst_list@[j]@.name)
                && (forall|i: int|
                0 <= i < inst_list@.len() ==> old(self).spec_shares_list(
                    (#[trigger] inst_list@[i]@.name),
                    inst_list@[0]@.name,
                )) && old(self).spec_shared_count(inst_list@[0]@.name) == inst_list@.len()))),
            inst_list@.len() > 0 && old(self).spec_station_names(inst_list@[0]@.name) is Some && r
                is Ok ==> (forall|op: Seq<char>|
                (#[trigger] final(self).spec_station_names(op)) == (if old(self).spec_shares_list(
                    op,
                    inst_list@[0]@.name,
                ) {
                    Some(old(self).spec_station_names(op)->0.push(station@))
                } else {
                    old(self).spec_station_names(op)
                })) && (forall|op: Seq<char>|
                (#[trigger] final(self).spec_syntax(op)) == old(self).spec_syntax(op)) && (forall|
                op1: Seq<char>,
                op2: Seq<char>,
            |
                (#[trigger] final(self).spec_shares_list(op1, op2)) == old(self).spec_shares_list(
                    op1,
                    op2,
                )) && (forall|op: Seq<char>|
                (#[trigger] final(self).spec_shared_count(op)) == old(self).spec_shared_count(op)),
            inst_list@.len() > 0 && old(self).spec_station_names(inst_list@[0]@.name) is None
                ==> (r is Ok <==> ((forall|i: int, j: int|
                0 <= i < j < inst_list@.len() ==> inst_list@[i]@.name != inst_list@[j]@.name)
                && (forall|i: int|
                0 <= i < inst_list@.len() ==> old(self).spec_station_names(
                    #[trigger] inst_list@[i]@.name,
                ) is None))),
            inst_list@.len() > 0 && old(self).spec_station_names(inst_list@[0]@.name) is None && r
                is Ok ==> (forall|op: Seq<char>|
                (#[trigger] final(self).spec_station_names(op)) == (if exists|i: int|
                    0 <= i < inst_list@.len() && inst_list@[i]@.name == op {
                    Some(seq![station@])
                } else {
                    old(self).spec_station_names(op)
                })) && (forall|op: Seq<char>|
                (#[trigger] final(self).spec_syntax(op)) == (if exists|i: int|
                    0 <= i < inst_list@.len() && inst_list@[i]@.name == op {
                    Some(
                        inst_list@[choose|i: int|
                            0 <= i < inst_list@.len() && inst_list@[i]@.name == op]@.syntax,
                    )
                } else {
                    old(self).spec_syntax(op)
                })) && (forall|op1: Seq<char>, op2: Seq<char>|
                (#[trigger] final(self).spec_shares_list(op1, op2)) == ({
                    let in1 = exists|i: int| 0 <= i < inst_list@.len() && inst_list@[i]@.name
                        == op1;
                    let in2 = exists|i: int| 0 <= i < inst_list@.len() && inst_list@[i]@.name
                        == op2;
                    if in1 && in2 {
                        true
                    } else if !in1 && !in2 {
                        old(self).spec_shares_list(op1, op2)
                    } else {
                        false
                    }
                })) && (forall|op: Seq<char>|
                (#[trigger] final(self).spec_shared_count(op)) == (if exists|i: int|
                    0 <= i < inst_list@.len() && inst_list@[i]@.name == op {
                    inst_list@.len()
                } else {
                    old(self).spec_shared_count(op)
                })),
            r is Err ==> *final(self) == *old(self),
    {
        if inst_list.len() == 0 {
            return Ok(());
        }
        let first_handle = self.find_station_handle(inst_list[0].name.as_str());
        if let Some(handle) = first_handle {
            // The set claims congruence with an already-registered one: every
            // opcode must be distinct and share the first opcode's list, and
            // the registered set must be no larger.
            proof {
                lemma_assoc_idx_props(self.stations@, inst_list@[0]@.name);
            }
            let mut k: usize = 0;
            while k < inst_list.len()
                invariant
                    old(self).wf(),
                    *self == *old(self),
                    inst_list@.len() > 0,
                    old(self).spec_station_names(inst_list@[0]@.name) is Some,
                    k <= inst_list@.len(),
                    assoc_idx(old(self).stations@, inst_list@[0]@.name) is Some,
                    old(self).stations@[assoc_idx(old(self).stations@, inst_list@[0]@.name)->0].1
                        == handle,
                    handle < old(self).lists@.len(),
                    forall|i: int|
                        0 <= i < k ==> old(self).spec_shares_list(
                            (#[trigger] inst_list@[i]@.name),
                            inst_list@[0]@.name,
                        ),
                    forall|i: int, j: int|
                        0 <= i < j < k ==> inst_list@[i]@.name != inst_list@[j]@.name,
                decreases inst_list@.len() - k,
            {
                match self.find_station_handle(inst_list[k].name.as_str()) {
                    Some(h2) => {
                        if h2 != handle {
                            proof {
                                lemma_assoc_idx_props(self.stations@, inst_list@[k as int]@.name);
                            }
                            return Err(String::from_str(
                                "Instruction has been used by other function unit",
                            ));
                        }
                        proof {
                            lemma_assoc_idx_props(self.stations@, inst_list@[k as int]@.name);
                        }
                    },
                    None => {
                        return Err(String::from_str(
                            "Station set is not congruent with the registered one",
                        ));
                    },
                }
                let mut j: usize = 0;
                while j < k
                    invariant
                        old(self).wf(),
                        *self == *old(self),
                        inst_list@.len() > 0,
                        old(self).spec_station_names(inst_list@[0]@.name) is Some,
                        k < inst_list@.len(),
                        j <= k,
                        forall|i: int|
                            0 <= i < j ==> inst_list@[i]@.name != inst_list@[k as int]@.name,
                    decreases k - j,
                {
                    if str_eq(inst_list[j].name.as_str(), inst_list[k].name.as_str()) {
                        return Err(String::from_str("Instruction repeated in one station set"));
                    }
                    j = j + 1;
                }
                k = k + 1;
            }
            let registered = self.count_with_handle(handle);
            if registered != inst_list.len() {
                return Err(String::from_str(
                    "Station set is not congruent with the registered one",
                ));
            }
            // The set is congruent: append the new station to the one list
            // shared by all its opcodes.
            let ghost prev = *self;
            let ghost st = station@;
            let list = &mut self.lists[handle];
            list.push(station);
            proof {
                assert(self.lists@[handle as int]@.map_values(|s: String| s@) =~= prev.lists@[
                    handle as int
                ]@.map_values(|s: String| s@).push(st));
                lemma_register_shared(prev, *self, inst_list@[0]@.name, handle as int, st);
            }
            return Ok(());
        }
        // Fresh set: every opcode must be new and distinct, else refuse.
        let mut k: usize = 0;
        while k < inst_list.len()
            invariant
                old(self).wf(),
                *self == *old(self),
                inst_list@.len() > 0,
                old(self).spec_station_names(inst_list@[0]@.name) is None,
                k <= inst_list@.len(),
                forall|i: int|
                    0 <= i < k ==> old(self).spec_station_names(
                        #[trigger] inst_list@[i]@.name,
                    ) is None,
                forall|i: int, j: int|
                    0 <= i < j < k ==> inst_list@[i]@.name != inst_list@[j]@.name,
            decreases inst_list@.len() - k,
        {
            if self.find_station_handle(inst_list[k].name.as_str()).is_some() {
                proof {
                    lemma_assoc_idx_props(self.stations@, inst_list@[k as int]@.name);
                }
                return Err(String::from_str(
                    "Instruction has been used by other function unit",
                ));
            }
            let mut j: usize = 0;
            while j < k
                invariant
                    old(self).wf(),
                    *self == *old(self),
                    inst_list@.len() > 0,
                    old(self).spec_station_names(inst_list@[0]@.name) is None,
                    k < inst_list@.len(),
                    j <= k,
                    forall|i: int| 0 <= i < j ==> inst_list@[i]@.name != inst_list@[k as int]@.name,
                decreases k - j,
            {
                if str_eq(inst_list[j].name.as_str(), inst_list[k].name.as_str()) {
                    return Err(String::from_str("Instruction repeated in one station set"));
                }
                j = j + 1;
            }
            k = k + 1;
        }
        let ghost prev = *self;
        let ghost st = station@;
        let handle = self.lists.len();
        let mut fresh: Vec<String> = Vec::new();
        fresh.push(station);
        self.lists.push(fresh);
        let mut batch_st: Vec<(String, usize)> = Vec::new();
        let mut batch_f: Vec<(String, InstFormat)> = Vec::new();
        let mut k: usize = 0;
        while k < inst_list.len()
            invariant
                k <= inst_list@.len(),
                batch_st@.len() == k,
                batch_f@.len() == k,
                forall|i: int|
                    0 <= i < k ==> (#[trigger] batch_st@[i]).0@ == inst_list@[i]@.name
                        && batch_st@[i].1 == handle,
                forall|i: int|
                    0 <= i < k ==> (#[trigger] batch_f@[i]).0@ == inst_list@[i]@.name
                        && batch_f@[i].1@ == inst_list@[i]@,
            decreases inst_list@.len() - k,
        {
            let name = inst_list[k].name.clone();
            let fmt = inst_list[k].clone();
            batch_st.push((name.clone(), handle));
            batch_f.push((name, fmt));
            k = k + 1;
        }
        let ghost bst = batch_st@;
        let ghost bf = batch_f@;
        self.stations.append(&mut batch_st);
        self.formats.append(&mut batch_f);
        proof {
            assert(self.lists@[handle as int]@.map_values(|s: String| s@) =~= seq![st]);
            assert forall|i: int|
                0 <= i < inst_list@.len() implies assoc_idx(
                prev.stations@,
                #[trigger] inst_list@[i]@.name,
            ) is None by {
                if assoc_idx(prev.stations@, inst_list@[i]@.name) is Some {
                    lemma_assoc_idx_props(prev.stations@, inst_list@[i]@.name);
                }
            }
            lemma_register_fresh(prev, *self, inst_list@, st, handle as int, bst, bf);
        }
        Ok(())
    }

    /// Return the names of the reservation stations suitable for the opcode.
    fn station_of(&self, inst_name: &str) -> (r: Result<Vec<String>, String>)
        requires
            self.wf(),
        ensures
            match self.spec_station_names(inst_name@) {
                Some(l) => r matches Ok(v) && v@.map_values(|s: String| s@) == l,
                None => r is Err,
            },
    {
        match self.find_station_handle(inst_name) {
            Some(handle) => {
                proof {
                    lemma_assoc_idx_props(self.stations@, inst_name@);
                }
                let list = self.lists[handle].clone();
                proof {
                    assert(list@.map_values(|s: String| s@) =~= self.lists@[handle as int]@.map_values(
                        |s: String| s@,
                    ));
                }
                Ok(list)
            },
            None => Err(String::from_str("Suitable reservation station not found")),
        }
    }

    /// Decode raw argument tokens against the expected syntax.
    fn decode_args(arguments: &[&str], syntax: &[TokenType]) -> (r: Result<
        (Vec<ArgType>, Option<ArgType>),
        String,
    >)
        ensures
            match spec_decode_args(arguments@.map_values(|t: &str| t@), syntax@) {
                Some((args, wb)) => r matches Ok((a, w)) && a@ == args && w == wb,
                None => r is Err,
            },
    {
        let ghost toks = arguments@.map_values(|t: &str| t@);
        if arguments.len() != syntax.len() {
            return Err(String::from_str("Argument count mismatch"));
        }
        let mut args: Vec<ArgType> = Vec::new();
        let mut writeback: Option<ArgType> = None;
        let mut i: usize = 0;
        while i < arguments.len()
            invariant
                arguments@.len() == syntax@.len(),
                toks == arguments@.map_values(|t: &str| t@),
                i <= arguments@.len(),
                spec_decode_args_from(toks, syntax@, 0, Seq::empty(), None)
                    == spec_decode_args_from(toks, syntax@, i as int, args@, writeback),
            decreases arguments@.len() - i,
        {
            let token: &str = arguments[i];
            let arg = match arg_scan(token) {
                Ok(a) => a,
                Err(e) => {
                    return Err(e);
                },
            };
            let get_type = TokenType::from(arg);
            let expect_type = syntax[i];
            if !get_type.matches(&expect_type) {
                return Err(String::from_str("Argument type mismatch"));
            }
            if expect_type == TokenType::Writeback {
                writeback = Some(arg);
            } else {
                args.push(arg);
            }
            i = i + 1;
        }
        Ok((args, writeback))
    }

    /// Decode one instruction text: split it into tokens, look the opcode up,
    /// and validate the arguments against the registered syntax.
    pub fn decode(&mut self, inst: &str) -> (r: Result<DecodedInst, String>)
        requires
            old(self).wf(),
        ensures
            final(self).wf(),
            final(self).spec_last_instruction() == inst@,
            forall|op: Seq<char>|
                (#[trigger] final(self).spec_station_names(op)) == old(self).spec_station_names(op),
            forall|op: Seq<char>|
                (#[trigger] final(self).spec_syntax(op)) == old(self).spec_syntax(op),
            ({
                let toks = spec_tokens(inst@);
                if toks.len() == 0 {
                    r is Err
                } else {
                    match (old(self).spec_station_names(toks[0]), old(self).spec_syntax(toks[0])) {
                        (Some(sts), Some(syn)) => match spec_decode_args(toks.drop_first(), syn) {
                            Some((args, wb)) => r matches Ok(d) && d@.name == toks[0] && d@.stations
                                == sts && d@.args == args && d@.writeback == wb,
                            None => r is Err,
                        },
                        _ => r is Err,
                    }
                }
            }),
    {
        self.instruction = inst.to_owned();
        let tokens = text_slicer(inst);
        if tokens.len() == 0 {
            return Err(String::from_str("No token has been found in instruction"));
        }
        let inst_name: &str = tokens[0];
        let stations = match self.station_of(inst_name) {
            Ok(s) => s,
            Err(e) => {
                return Err(e);
            },
        };
        let format = match self.find_format(inst_name) {
            Some(f) => f,
            None => {
                return Err(String::from_str("Instruction has not been implemented"));
            },
        };
        let mut arguments: Vec<&str> = Vec::new();
        let mut i: usize = 1;
        while i < tokens.len()
            invariant
                1 <= i <= tokens@.len(),
                arguments@ == tokens@.subrange(1, i as int),
            decreases tokens@.len() - i,
        {
            let t: &str = tokens[i];
            arguments.push(t);
            proof {
                assert(arguments@ =~= tokens@.subrange(1, i as int + 1));
            }
            i = i + 1;
        }
        proof {
            assert(arguments@ =~= tokens@.drop_first());
            assert(arguments@.map_values(|t: &str| t@) =~= tokens@.map_values(
                |t: &str| t@,
            ).drop_first());
        }
        let (args, writeback) = match Self::decode_args(arguments.as_slice(), format.syntax.as_slice()) {
            Ok(x) => x,
            Err(e) => {
                return Err(e);
            },
        };
        Ok(DecodedInst { name: inst_name.to_owned(), stations, args, writeback })
    }

    /// The text handed to the last `decode` call.
    pub fn last_instruction(&self) -> (r: &str)
        ensures
            r@ == self.spec_last_instruction(),
    {
        self.instruction.as_str()
    }
}

proof fn lemma_assoc_idx_member<V>(s: Seq<(String, V)>, key: Seq<char>, j: int)
    requires
        0 <= j < s.len(),
        s[j].0@ == key,
    ensures
        assoc_idx(s, key) is Some,
    decreases s.len(),
{
    if s[0].0@ != key {
        assert(s.drop_first()[j - 1] == s[j]);
        lemma_assoc_idx_member(s.drop_first(), key, j - 1);
    }
}

proof fn lemma_assoc_idx_append<V>(s: Seq<(String, V)>, t: Seq<(String, V)>, key: Seq<char>)
    ensures
        assoc_idx(s, key) is Some ==> assoc_idx(s + t, key) == assoc_idx(s, key),
        assoc_idx(s, key) is None ==> assoc_idx(s + t, key) == (match assoc_idx(t, key) {
            Some(j) => Some(s.len() + j),
            None => None::<int>,
        }),
    decreases s.len(),
{
    if s.len() == 0 {
        assert(s + t =~= t);
    } else {
        assert((s + t)[0] == s[0]);
        assert((s + t).drop_first() =~= s.drop_first() + t);
        lemma_assoc_idx_append(s.drop_first(), t, key);
    }
}

/// Effect of appending one station to the shared list of `first` on every
/// opcode's station lookup.
proof fn lemma_register_shared(
    prev: Decoder,
    cur: Decoder,
    first: Seq<char>,
    handle: int,
    station: Seq<char>,
)
    requires
        prev.wf(),
        assoc_idx(prev.stations@, first) is Some,
        prev.stations@[assoc_idx(prev.stations@, first)->0].1 == handle,
        0 <= handle < prev.lists@.len(),
        cur.stations@ == prev.stations@,
        cur.formats@ == prev.formats@,
        cur.instruction@ == prev.instruction@,
        cur.lists@.len() == prev.lists@.len(),
        cur.lists@[handle]@.map_values(|s: String| s@) == prev.lists@[handle]@.map_values(
            |s: String| s@,
        ).push(station),
        forall|h: int| 0 <= h < prev.lists@.len() && h != handle ==> cur.lists@[h] == prev.lists@[h],
    ensures
        cur.wf(),
        forall|op: Seq<char>|
            (#[trigger] cur.spec_station_names(op)) == (if prev.spec_shares_list(op, first) {
                Some(prev.spec_station_names(op)->0.push(station))
            } else {
                prev.spec_station_names(op)
            }),
        forall|op: Seq<char>| (#[trigger] cur.spec_syntax(op)) == prev.spec_syntax(op),
        forall|op1: Seq<char>, op2: Seq<char>|
            (#[trigger] cur.spec_shares_list(op1, op2)) == prev.spec_shares_list(op1, op2),
        forall|op: Seq<char>| (#[trigger] cur.spec_shared_count(op)) == prev.spec_shared_count(op),
{
    assert forall|op: Seq<char>|
        (#[trigger] cur.spec_station_names(op)) == (if prev.spec_shares_list(op, first) {
            Some(prev.spec_station_names(op)->0.push(station))
        } else {
            prev.spec_station_names(op)
        }) by {
        match assoc_idx(prev.stations@, op) {
            Some(i) => {
                lemma_assoc_idx_props(prev.stations@, op);
                let h = prev.stations@[i].1 as int;
                if h == handle {
                    assert(cur.lists@[h]@.map_values(|s: String| s@) =~= prev.lists@[h]@.map_values(
                        |s: String| s@,
                    ).push(station));
                }
            },
            None => {},
        }
    }
}

/// Every register argument a successful decode produces is a valid register
/// index, and so is the writeback destination; moreover the writeback
/// destination is always a register, never an immediate: the matching table
/// refuses an immediate in a writeback position.
pub proof fn lemma_decode_args_bounded(
    toks: Seq<Seq<char>>,
    syn: Seq<TokenType>,
    i: int,
    args: Seq<ArgType>,
    wb: Option<ArgType>,
)
    requires
        forall|k: int|
            0 <= k < args.len() ==> ((#[trigger] args[k]) matches ArgType::Reg(x) ==> x
                < crate::register::register_count()),
        wb matches Some(a) ==> a matches ArgType::Reg(x) && x < crate::register::register_count(),
        spec_decode_args_from(toks, syn, i, args, wb) is Some,
    ensures
        ({
            let (rargs, rwb) = spec_decode_args_from(toks, syn, i, args, wb)->0;
            &&& (forall|k: int|
                0 <= k < rargs.len() ==> ((#[trigger] rargs[k]) matches ArgType::Reg(x) ==> x
                    < crate::register::register_count()))
            &&& (rwb matches Some(a) ==> a matches ArgType::Reg(x) && x
                < crate::register::register_count())
        }),
    decreases toks.len() - i,
{
    if 0 <= i < toks.len() {
        match spec_arg_scan(toks[i]) {
            None => {},
            Some(arg) => {
                if !spec_matches(spec_token_type_of(arg), syn[i]) {
                } else if syn[i] == TokenType::Writeback {
                    lemma_decode_args_bounded(toks, syn, i + 1, args, Some(arg));
                } else {
                    assert(forall|k: int|
                        0 <= k < args.len() ==> args.push(arg)[k] == #[trigger] args[k]);
                    lemma_decode_args_bounded(toks, syn, i + 1, args.push(arg), wb);
                }
            },
        }
    }
}

/// Effect of registering a fresh, conflict-free opcode set on every opcode's
/// station and syntax lookups.
proof fn lemma_register_fresh(
    prev: Decoder,
    cur: Decoder,
    insts: Seq<InstFormat>,
    station: Seq<char>,
    handle: int,
    bst: Seq<(String, usize)>,
    bf: Seq<(String, InstFormat)>,
)
    requires
        prev.wf(),
        insts.len() > 0,
        forall|i: int|
            0 <= i < insts.len() ==> assoc_idx(prev.stations@, #[trigger] insts[i]@.name) is None,
        forall|i: int, j: int| 0 <= i < j < insts.len() ==> insts[i]@.name != insts[j]@.name,
        bst.len() == insts.len(),
        bf.len() == insts.len(),
        forall|i: int|
            0 <= i < insts.len() ==> (#[trigger] bst[i]).0@ == insts[i]@.name && bst[i].1
                == handle,
        forall|i: int|
            0 <= i < insts.len() ==> (#[trigger] bf[i]).0@ == insts[i]@.name && bf[i].1@
                == insts[i]@,
        handle == prev.lists@.len(),
        cur.stations@ == prev.stations@ + bst,
        cur.formats@ == prev.formats@ + bf,
        cur.lists@.len() == prev.lists@.len() + 1,
        forall|h: int| 0 <= h < prev.lists@.len() ==> cur.lists@[h] == prev.lists@[h],
        cur.lists@[handle]@.map_values(|s: String| s@) == seq![station],
    ensures
        cur.wf(),
        forall|op: Seq<char>|
            (#[trigger] cur.spec_station_names(op)) == (if exists|i: int|
                0 <= i < insts.len() && insts[i]@.name == op {
                Some(seq![station])
            } else {
                prev.spec_station_names(op)
            }),
        forall|op: Seq<char>|
            (#[trigger] cur.spec_syntax(op)) == (if exists|i: int|
                0 <= i < insts.len() && insts[i]@.name == op {
                Some(insts[choose|i: int| 0 <= i < insts.len() && insts[i]@.name == op]@.syntax)
            } else {
                prev.spec_syntax(op)
            }),
        forall|op1: Seq<char>, op2: Seq<char>|
            (#[trigger] cur.spec_shares_list(op1, op2)) == ({
                let in1 = exists|i: int| 0 <= i < insts.len() && insts[i]@.name == op1;
                let in2 = exists|i: int| 0 <= i < insts.len() && insts[i]@.name == op2;
                if in1 && in2 {
                    true
                } else if !in1 && !in2 {
                    prev.spec_shares_list(op1, op2)
                } else {
                    false
                }
            }),
        forall|op: Seq<char>|
            (#[trigger] cur.spec_shared_count(op)) == (if exists|i: int|
                0 <= i < insts.len() && insts[i]@.name == op {
                insts.len()
            } else {
                prev.spec_shared_count(op)
            }),
{
    assert forall|op: Seq<char>|
        (#[trigger] cur.spec_station_names(op)) == (if exists|i: int|
            0 <= i < insts.len() && insts[i]@.name == op {
            Some(seq![station])
        } else {
            prev.spec_station_names(op)
        }) by {
        lemma_assoc_idx_append(prev.stations@, bst, op);
        if exists|i: int| 0 <= i < insts.len() && insts[i]@.name == op {
            let i0 = choose|i: int| 0 <= i < insts.len() && insts[i]@.name == op;
            assert(forall|j: int| 0 <= j < i0 ==> bst[j].0@ != op);
            lemma_assoc_idx_found(bst, op, i0);
            assert(assoc_idx(prev.stations@, op) is None);
            assert(assoc_idx(cur.stations@, op) == Some(prev.stations@.len() + i0));
            assert(cur.stations@[prev.stations@.len() + i0] == bst[i0]);
            assert(cur.spec_station_names(op) == Some(seq![station]));
        } else {
            assert(forall|j: int| 0 <= j < bst.len() ==> bst[j].0@ != op);
            lemma_assoc_idx_none(bst, op);
            match assoc_idx(prev.stations@, op) {
                Some(i) => {
                    lemma_assoc_idx_props(prev.stations@, op);
                    assert(cur.stations@[i] == prev.stations@[i]);
                    assert(prev.stations@[i].1 < prev.lists@.len());
                    assert(cur.lists@[prev.stations@[i].1 as int] == prev.lists@[prev.stations@[i].1 as int]);
                },
                None => {},
            }
        }
    }
    assert forall|op: Seq<char>|
        (#[trigger] cur.spec_syntax(op)) == (if exists|i: int|
            0 <= i < insts.len() && insts[i]@.name == op {
            Some(insts[choose|i: int| 0 <= i < insts.len() && insts[i]@.name == op]@.syntax)
        } else {
            prev.spec_syntax(op)
        }) by {
        lemma_assoc_idx_append(prev.formats@, bf, op);
        if exists|i: int| 0 <= i < insts.len() && insts[i]@.name == op {
            let i0 = choose|i: int| 0 <= i < insts.len() && insts[i]@.name == op;
            assert(forall|j: int| 0 <= j < i0 ==> bf[j].0@ != op);
            lemma_assoc_idx_found(bf, op, i0);
            assert(assoc_idx(prev.stations@, op) is None);
            if assoc_idx(prev.formats@, op) is Some {
                assert(assoc_idx(prev.stations@, op) is Some);
                assert(false);
            }
            assert(assoc_idx(cur.formats@, op) == Some(prev.formats@.len() + i0));
            assert(cur.formats@[prev.formats@.len() + i0] == bf[i0]);
            assert(cur.spec_syntax(op) == Some(insts[i0]@.syntax));
        } else {
            assert(forall|j: int| 0 <= j < bf.len() ==> bf[j].0@ != op);
            lemma_assoc_idx_none(bf, op);
            match assoc_idx(prev.formats@, op) {
                Some(i) => {
                    lemma_assoc_idx_props(prev.formats@, op);
                    assert(cur.formats@[i] == prev.formats@[i]);
                },
                None => {},
            }
        }
    }
    assert forall|op1: Seq<char>, op2: Seq<char>|
        (#[trigger] cur.spec_shares_list(op1, op2)) == ({
            let in1 = exists|i: int| 0 <= i < insts.len() && insts[i]@.name == op1;
            let in2 = exists|i: int| 0 <= i < insts.len() && insts[i]@.name == op2;
            if in1 && in2 {
                true
            } else if !in1 && !in2 {
                prev.spec_shares_list(op1, op2)
            } else {
                false
            }
        }) by {
        lemma_assoc_idx_append(prev.stations@, bst, op1);
        lemma_assoc_idx_append(prev.stations@, bst, op2);
        if exists|i: int| 0 <= i < insts.len() && insts[i]@.name == op1 {
            let i1 = choose|i: int| 0 <= i < insts.len() && insts[i]@.name == op1;
            assert(forall|j: int| 0 <= j < i1 ==> bst[j].0@ != op1);
            lemma_assoc_idx_found(bst, op1, i1);
            assert(cur.stations@[prev.stations@.len() + i1] == bst[i1]);
        } else {
            assert(forall|j: int| 0 <= j < bst.len() ==> bst[j].0@ != op1);
            lemma_assoc_idx_none(bst, op1);
            if assoc_idx(prev.stations@, op1) is Some {
                lemma_assoc_idx_props(prev.stations@, op1);
                let i = assoc_idx(prev.stations@, op1)->0;
                assert(cur.stations@[i] == prev.stations@[i]);
            }
        }
        if exists|i: int| 0 <= i < insts.len() && insts[i]@.name == op2 {
            let i2 = choose|i: int| 0 <= i < insts.len() && insts[i]@.name == op2;
            assert(forall|j: int| 0 <= j < i2 ==> bst[j].0@ != op2);
            lemma_assoc_idx_found(bst, op2, i2);
            assert(cur.stations@[prev.stations@.len() + i2] == bst[i2]);
        } else {
            assert(forall|j: int| 0 <= j < bst.len() ==> bst[j].0@ != op2);
            lemma_assoc_idx_none(bst, op2);
            if assoc_idx(prev.stations@, op2) is Some {
                lemma_assoc_idx_props(prev.stations@, op2);
                let i = assoc_idx(prev.stations@, op2)->0;
                assert(cur.stations@[i] == prev.stations@[i]);
            }
        }
    }
    assert forall|op: Seq<char>|
        (#[trigger] cur.spec_shared_count(op)) == (if exists|i: int|
            0 <= i < insts.len() && insts[i]@.name == op {
            insts.len()
        } else {
            prev.spec_shared_count(op)
        }) by {
        lemma_assoc_idx_append(prev.stations@, bst, op);
        if exists|i: int| 0 <= i < insts.len() && insts[i]@.name == op {
            let i0 = choose|i: int| 0 <= i < insts.len() && insts[i]@.name == op;
            assert(forall|j: int| 0 <= j < i0 ==> bst[j].0@ != op);
            lemma_assoc_idx_found(bst, op, i0);
            assert(cur.stations@[prev.stations@.len() + i0] == bst[i0]);
            lemma_count_handle_append(prev.stations@, bst, handle);
            lemma_count_handle_uniform(bst, handle);
            lemma_count_handle_uniform(prev.stations@, handle);
            assert(forall|i: int| 0 <= i < bst.len() ==> (#[trigger] bst[i]).1 == handle);
            assert(forall|i: int|
                0 <= i < prev.stations@.len() ==> (#[trigger] prev.stations@[i]).1 != handle);
        } else {
            assert(forall|j: int| 0 <= j < bst.len() ==> bst[j].0@ != op);
            lemma_assoc_idx_none(bst, op);
            if assoc_idx(prev.stations@, op) is Some {
                lemma_assoc_idx_props(prev.stations@, op);
                let i = assoc_idx(prev.stations@, op)->0;
                assert(cur.stations@[i] == prev.stations@[i]);
                let h2 = prev.stations@[i].1 as int;
                lemma_count_handle_append(prev.stations@, bst, h2);
                lemma_count_handle_uniform(bst, h2);
                assert(prev.stations@[i].1 < prev.lists@.len());
                assert(forall|k: int| 0 <= k < bst.len() ==> (#[trigger] bst[k]).1 != h2);
            }
        }
    }
    assert forall|op: Seq<char>| (#[trigger] assoc_idx(cur.formats@, op)) is Some implies assoc_idx(
        cur.stations@,
        op,
    ) is Some by {
        lemma_assoc_idx_append(prev.formats@, bf, op);
        lemma_assoc_idx_append(prev.stations@, bst, op);
        if assoc_idx(prev.formats@, op) is Some {
            assert(assoc_idx(prev.stations@, op) is Some);
        } else {
            if assoc_idx(cur.formats@, op) is Some {
                assert(assoc_idx(bf, op) is Some);
                lemma_assoc_idx_props(bf, op);
                let j = assoc_idx(bf, op)->0;
                assert(bf[j].0@ == op);
                assert(bst[j].0@ == op);
                lemma_assoc_idx_member(bst, op, j);
            }
        }
    }
}

} // verus!
