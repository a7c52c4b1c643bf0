//! The export of a parsed map file as lines of `<decimal address> <name>`.
use vstd::prelude::*;
use crate::map::{MapFile, MapFileView, SymbolView, symbol_views};
use crate::number::{decimal, push_decimal};
use crate::text::{chars_of, contains_seq, find_seq, push_char, push_str_chars};

verus! {

/// The characters that a name keeps when exported.
pub open spec fn is_name_char(c: char) -> bool {
    ('A' <= c && c <= 'Z') || ('a' <= c && c <= 'z') || ('0' <= c && c <= '9') || c == '_' || c
        == '$' || c == '?' || c == '@'
}

/// `s` with every character outside the name characters replaced by `_`.
pub open spec fn sanitized(s: Seq<char>) -> Seq<char> {
    s.map_values(|c: char| if is_name_char(c) { c } else { '_' })
}

/// Replacing the characters a second time changes nothing, and the
/// replacement keeps the length.
pub proof fn lemma_sanitize_idempotent(s: Seq<char>)
    ensures
        sanitized(sanitized(s)) == sanitized(s),
        sanitized(s).len() == s.len(),
{
    assert(sanitized(sanitized(s)) =~= sanitized(s));
}

/// Replaces every character of `name` outside `A-Z a-z 0-9 _ $ ? @` by `_`.
pub fn sanitize_name(name: &str) -> (r: String)
    ensures
        r@ == sanitized(name@),
{
    let v = chars_of(name);
    let mut r = String::new();
    let mut i: usize = 0;
    while i < v.len()
        invariant
            i <= v@.len(),
            v@ == name@,
            r@ == sanitized(v@.take(i as int)),
        decreases v@.len() - i,
    {
        let c = v[i];
        let keep = ('A' <= c && c <= 'Z') || ('a' <= c && c <= 'z') || ('0' <= c && c <= '9') || c
            == '_' || c == '$' || c == '?' || c == '@';
        push_char(&mut r, if keep { c } else { '_' });
        assert(sanitized(v@.take(i + 1)) =~= sanitized(v@.take(i as int)).push(if is_name_char(c) { c } else { '_' }));
        i += 1;
    }
    assert(v@.take(v@.len() as int) =~= v@);
    r
}

/// What the MSVC demangler, asked for the name only, makes of a symbol: the
/// name, or `None` where it cannot demangle the symbol.
pub uninterp spec fn demangled_name(symbol: Seq<char>) -> Option<Seq<char>>;

/// The longest symbol handed to the demangler, whose parser and printer
/// recurse without a depth limit. MSVC emits no decorated name longer than
/// this: it replaces longer ones by their `??@<md5>@` form.
pub const MAX_DEMANGLE_LEN: usize = 4096;

/// The characters from `from` to `to` of `s` are all decimal digits.
pub open spec fn all_digits(s: Seq<char>, from: int, to: int) -> bool {
    forall|k: int| from <= k < to ==> '0' <= #[trigger] s[k] && s[k] <= '9'
}

/// A `$TSS` at index `i` of `s` (a thread-safe static guard, whose number the
/// demangler sums into an `i32`) is followed by fewer than ten digits.
pub open spec fn guard_ok(s: Seq<char>, i: int) -> bool {
    0 <= i && i + 14 <= s.len() && s[i] == '$' && s[i + 1] == 'T' && s[i + 2] == 'S' && s[i + 3]
        == 'S' ==> !all_digits(s, i + 4, i + 14)
}

/// An `?$` at index `i` of `s` is followed by characters from `A` up (an
/// escape in an encoded string subtracts `A` from the next two bytes).
pub open spec fn escape_ok(s: Seq<char>, i: int) -> bool {
    0 <= i && i + 1 < s.len() && s[i] == '?' && s[i + 1] == '$' ==> (i + 2 < s.len() ==> s[i
        + 2] >= 'A') && (i + 3 < s.len() ==> s[i + 3] >= 'A')
}

/// The tail of every encoded number that decodes to `i32::MIN`, which the
/// demangler negates for a template parameter index.
pub open spec fn min_number_marker() -> Seq<char> {
    "IAAAAAAA@"@
}

/// A symbol that the demangler reads without panicking: it is at most
/// `MAX_DEMANGLE_LEN` long, no guard number has ten digits, every `?$` is
/// followed by characters from `A` up, and no number decodes to `i32::MIN`.
/// Other symbols are treated as not demangled.
pub open spec fn demangle_admits(s: Seq<char>) -> bool {
    &&& s.len() <= MAX_DEMANGLE_LEN
    &&& forall|i: int| #[trigger] guard_ok(s, i)
    &&& forall|i: int| #[trigger] escape_ok(s, i)
    &&& !contains_seq(s, min_number_marker())
}

fn digits_between(s: &Vec<char>, from: usize, to: usize) -> (r: bool)
    requires
        from <= to <= s@.len(),
    ensures
        r == all_digits(s@, from as int, to as int),
{
    let mut k = from;
    while k < to
        invariant
            from <= k <= to <= s@.len(),
            all_digits(s@, from as int, k as int),
        decreases to - k,
    {
        if !('0' <= s[k] && s[k] <= '9') {
            return false;
        }
        k += 1;
    }
    true
}

fn guards_short(s: &Vec<char>) -> (r: bool)
    ensures
        r == forall|i: int| #[trigger] guard_ok(s@, i),
{
    let n = s.len();
    let mut i: usize = 0;
    while i < n
        invariant
            n == s@.len(),
            i <= n,
            forall|j: int| j < i ==> #[trigger] guard_ok(s@, j),
        decreases n - i,
    {
        if 14 <= n - i && s[i] == '$' && s[i + 1] == 'T' && s[i + 2] == 'S' && s[i + 3] == 'S' {
            if digits_between(s, i + 4, i + 14) {
                assert(!guard_ok(s@, i as int));
                return false;
            }
        }
        assert(guard_ok(s@, i as int));
        i += 1;
    }
    assert forall|j: int| #[trigger] guard_ok(s@, j) by {
        if j >= i {
            assert(j + 14 > s@.len());
        }
    }
    true
}

fn escapes_followed_by_letters(s: &Vec<char>) -> (r: bool)
    ensures
        r == forall|i: int| #[trigger] escape_ok(s@, i),
{
    let n = s.len();
    let mut i: usize = 0;
    while i < n
        invariant
            n == s@.len(),
            i <= n,
            forall|j: int| j < i ==> #[trigger] escape_ok(s@, j),
        decreases n - i,
    {
        if s[i] == '?' && i + 1 < n && s[i + 1] == '$' {
            if i + 2 < n && 'A' > s[i + 2] {
                assert(!escape_ok(s@, i as int));
                return false;
            }
            if i + 2 < n && i + 3 < n && 'A' > s[i + 3] {
                assert(!escape_ok(s@, i as int));
                return false;
            }
        }
        assert(escape_ok(s@, i as int));
        i += 1;
    }
    true
}

/// Whether `s` may be handed to the demangler.
pub fn demangle_admissible(s: &Vec<char>) -> (r: bool)
    ensures
        r == demangle_admits(s@),
{
    s.len() <= MAX_DEMANGLE_LEN && guards_short(s) && escapes_followed_by_letters(s) && find_seq(
        s,
        &chars_of("IAAAAAAA@"),
    ).is_none()
}

/// Relies on `msvc_demangler::demangle` with `DemangleFlags::NAME_ONLY`: its
/// result depends on the symbol text alone, and on admitted symbols it returns
/// rather than panicking.
#[verifier::external_body]
fn demangle(symbol: &str) -> (r: Option<String>)
    requires
        demangle_admits(symbol@),
    ensures
        match r {
            Some(d) => demangled_name(symbol@) == Some(d@),
            None => demangled_name(symbol@) is None,
        },
{
    msvc_demangler::demangle(symbol, msvc_demangler::DemangleFlags::NAME_ONLY).ok()
}

/// The name shown for `symbol`: its demangled form where the symbol is
/// admitted and the demangler accepts it, else the symbol itself.
pub open spec fn display_name(symbol: Seq<char>) -> Seq<char> {
    if demangle_admits(symbol) {
        match demangled_name(symbol) {
            Some(d) => d,
            None => symbol,
        }
    } else {
        symbol
    }
}

/// The output line for a record with RVA `rva` under load address `load`,
/// whose symbol shows as `name`.
pub open spec fn entry_text(rva: u64, load: u64, name: Seq<char>) -> Seq<char> {
    decimal((rva + load) as nat) + seq![' '] + sanitized(name) + seq!['\n']
}

/// The output line for one record.
pub open spec fn export_line(load: u64, s: SymbolView) -> Seq<char> {
    entry_text(s.rva, load, display_name(s.symbol))
}

/// The output lines for `recs`, in order.
pub open spec fn export_lines(load: u64, recs: Seq<SymbolView>) -> Seq<char>
    decreases recs.len(),
{
    if recs.len() == 0 {
        Seq::empty()
    } else {
        export_lines(load, recs.drop_last()) + export_line(load, recs.last())
    }
}

/// The whole output: the public symbols, then the static ones, each in the
/// order of the input.
pub open spec fn export_text(m: MapFileView) -> Seq<char> {
    export_lines(m.preferred_load_addr, m.functions) + export_lines(
        m.preferred_load_addr,
        m.static_symbols,
    )
}

/// Every absolute address `rva + load` fits in a `u64`.
pub open spec fn exportable(m: MapFileView) -> bool {
    &&& forall|i: int|
        0 <= i < m.functions.len() ==> (#[trigger] m.functions[i]).rva + m.preferred_load_addr
            <= u64::MAX
    &&& forall|i: int|
        0 <= i < m.static_symbols.len() ==> (#[trigger] m.static_symbols[i]).rva
            + m.preferred_load_addr <= u64::MAX
}

/// The output line for a record with RVA `rva` under load address `load`,
/// given its symbol and what the demangler made of it.
pub fn export_entry(rva: u64, load: u64, symbol: &str, demangled: Option<String>) -> (r: String)
    requires
        rva + load <= u64::MAX,
    ensures
        r@ == entry_text(
            rva,
            load,
            match demangled {
                Some(d) => d@,
                None => symbol@,
            },
        ),
{
    let mut r = String::new();
    push_decimal(&mut r, rva + load);
    push_char(&mut r, ' ');
    let name = match &demangled {
        Some(d) => sanitize_name(d.as_str()),
        None => sanitize_name(symbol),
    };
    push_str_chars(&mut r, name.as_str());
    push_char(&mut r, '\n');
    assert(r@ =~= decimal((rva + load) as nat) + seq![' '] + name@ + seq!['\n']);
    r
}

fn push_lines(out: &mut String, load: u64, recs: &Vec<crate::map::Symbol>)
    requires
        forall|i: int| 0 <= i < recs@.len() ==> #[trigger] recs@[i].rva.0 + load <= u64::MAX,
    ensures
        final(out)@ == old(out)@ + export_lines(load, symbol_views(recs@)),
{
    let ghost start = out@;
    let mut i: usize = 0;
    while i < recs.len()
        invariant
            i <= recs@.len(),
            forall|i: int| 0 <= i < recs@.len() ==> #[trigger] recs@[i].rva.0 + load <= u64::MAX,
            out@ == start + export_lines(load, symbol_views(recs@).take(i as int)),
        decreases recs@.len() - i,
    {
        let rec = &recs[i];
        let symbol = rec.symbol.as_str();
        let demangled = if demangle_admissible(&chars_of(symbol)) {
            demangle(symbol)
        } else {
            None
        };
        let line = export_entry(rec.rva.0, load, symbol, demangled);
        push_str_chars(out, line.as_str());
        proof {
            let v = symbol_views(recs@);
            assert(v.take(i + 1).drop_last() =~= v.take(i as int));
            assert(v.take(i + 1).last() == rec@);
        }
        i += 1;
    }
    assert(symbol_views(recs@).take(recs@.len() as int) =~= symbol_views(recs@));
}

impl MapFile {
    /// Whether every absolute address of the file fits, so that it can be
    /// exported.
    pub fn can_export(&self) -> (r: bool)
        ensures
            r == exportable(self@),
    {
        let load = self.preferred_load_addr;
        let mut i: usize = 0;
        while i < self.functions.len()
            invariant
                i <= self.functions@.len(),
                load == self.preferred_load_addr,
                forall|j: int| 0 <= j < i ==> #[trigger] self.functions@[j].rva.0 + load <= u64::MAX,
            decreases self.functions@.len() - i,
        {
            if self.functions[i].rva.0 > u64::MAX - load {
                assert(self@.functions[i as int] == self.functions@[i as int]@);
                return false;
            }
            i += 1;
        }
        let mut i: usize = 0;
        while i < self.static_symbols.len()
            invariant
                i <= self.static_symbols@.len(),
                load == self.preferred_load_addr,
                forall|j: int| 0 <= j < self.functions@.len() ==> #[trigger] self.functions@[j].rva.0 + load <= u64::MAX,
                forall|j: int| 0 <= j < i ==> #[trigger] self.static_symbols@[j].rva.0 + load <= u64::MAX,
            decreases self.static_symbols@.len() - i,
        {
            if self.static_symbols[i].rva.0 > u64::MAX - load {
                assert(self@.static_symbols[i as int] == self.static_symbols@[i as int]@);
                return false;
            }
            i += 1;
        }
        assert(forall|j: int| 0 <= j < self@.functions.len() ==> self@.functions[j] == self.functions@[j]@);
        assert(forall|j: int| 0 <= j < self@.static_symbols.len() ==> self@.static_symbols[j] == self.static_symbols@[j]@);
        true
    }

    /// The export listing: one line `<rva + load address> <name>` per public
    /// symbol, then per static symbol, in input order. The name is the
    /// demangled symbol where the symbol is admitted (`demangle_admits`) and
    /// the demangler accepts it, else the symbol, with
    /// every character outside `A-Z a-z 0-9 _ $ ? @` replaced by `_`.
    pub fn export(&self) -> (r: String)
        requires
            exportable(self@),
        ensures
            r@ == export_text(self@),
    {
        let load = self.preferred_load_addr;
        assert forall|j: int| 0 <= j < self.functions@.len() implies #[trigger] self.functions@[j].rva.0 + load <= u64::MAX by {
            assert(self@.functions[j] == self.functions@[j]@);
        }
        assert forall|j: int| 0 <= j < self.static_symbols@.len() implies #[trigger] self.static_symbols@[j].rva.0 + load <= u64::MAX by {
            assert(self@.static_symbols[j] == self.static_symbols@[j]@);
        }
        let mut out = String::new();
        push_lines(&mut out, load, &self.functions);
        push_lines(&mut out, load, &self.static_symbols);
        out
    }
}

} // verus!
