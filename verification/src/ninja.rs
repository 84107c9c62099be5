//! The loading order of a ninja skin's numbered parts.
//!
//! A ninja has numbered parts (muzzle textures `muzzle0`, `muzzle1`, ...;
//! attack sounds `attack1`, `attack2`, ...; hit sounds `hit1`, `hit2`, ...).
//! They are loaded one after the other until one cannot be loaded: the first
//! one must exist, later ones end the sequence when missing. A part may come
//! from the default skin only as long as all parts before it did.

use vstd::prelude::*;

verus! {

/// What became of loading one part.
#[derive(Clone, Copy, Debug, PartialEq, Eq, Structural)]
pub enum PartOutcome {
    /// The part was loaded; `from_default` tells whether the default skin gave it.
    Loaded { from_default: bool },
    /// The part could not be loaded.
    Failed,
}

/// What the loader does next.
#[derive(Clone, Copy, Debug, PartialEq, Eq, Structural)]
pub enum PartStep {
    /// Load the next part.
    Continue,
    /// The sequence is complete; the failed part does not exist.
    Finished,
    /// Not even the first part could be loaded: loading the ninja fails.
    Abort,
}

/// The decimal digits of `n`, most significant first.
pub open spec fn decimal(n: nat) -> Seq<char>
    decreases n,
{
    if n < 10 {
        seq![digit_char(n)]
    } else {
        decimal(n / 10).push(digit_char(n % 10))
    }
}

pub open spec fn digit_char(d: nat) -> char {
    if d == 0 { '0' }
    else if d == 1 { '1' }
    else if d == 2 { '2' }
    else if d == 3 { '3' }
    else if d == 4 { '4' }
    else if d == 5 { '5' }
    else if d == 6 { '6' }
    else if d == 7 { '7' }
    else if d == 8 { '8' }
    else { '9' }
}

/// The one-character string of digit `d`.
fn digit_str(d: u64) -> (s: &'static str)
    requires
        d < 10,
    ensures
        s@ == seq![digit_char(d as nat)],
{
    proof {
        reveal_strlit("0");
        reveal_strlit("1");
        reveal_strlit("2");
        reveal_strlit("3");
        reveal_strlit("4");
        reveal_strlit("5");
        reveal_strlit("6");
        reveal_strlit("7");
        reveal_strlit("8");
        reveal_strlit("9");
    }
    let s = if d == 0 {
        "0"
    } else if d == 1 {
        "1"
    } else if d == 2 {
        "2"
    } else if d == 3 {
        "3"
    } else if d == 4 {
        "4"
    } else if d == 5 {
        "5"
    } else if d == 6 {
        "6"
    } else if d == 7 {
        "7"
    } else if d == 8 {
        "8"
    } else {
        "9"
    };
    assert(s@ =~= seq![digit_char(d as nat)]);
    s
}

/// Appends the decimal digits of `n` to `out`.
fn push_decimal(out: &mut String, n: u64)
    ensures
        final(out)@ == old(out)@ + decimal(n as nat),
    decreases n,
{
    if n < 10 {
        out.append(digit_str(n));
    } else {
        push_decimal(out, n / 10);
        out.append(digit_str(n % 10));
        assert(out@ =~= old(out)@ + decimal(n as nat));
    }
}

/// The loading state of one sequence of numbered parts.
#[derive(Debug)]
pub struct PartSequence {
    prefix: String,
    first_number: u64,
    index: u64,
    allow_default: bool,
}

/// The state of a part sequence, as numbers and flags.
pub struct PartSequenceV {
    /// The name of every part starts with it.
    pub prefix: Seq<char>,
    /// The number in the name of the first part.
    pub first_number: nat,
    /// How many parts have been loaded so far.
    pub loaded: nat,
    /// Whether the next part may come from the default skin.
    pub allow_default: bool,
}

impl View for PartSequence {
    type V = PartSequenceV;

    closed spec fn view(&self) -> PartSequenceV {
        PartSequenceV {
            prefix: self.prefix@,
            first_number: self.first_number as nat,
            loaded: self.index as nat,
            allow_default: self.allow_default,
        }
    }
}

/// The state in which a sequence named `prefix` starts.
pub open spec fn fresh_sequence(prefix: Seq<char>, first_number: nat) -> PartSequenceV {
    PartSequenceV { prefix, first_number, loaded: 0, allow_default: true }
}

/// The state after `outcome`, and what comes next.
pub open spec fn after_outcome(s: PartSequenceV, outcome: PartOutcome) -> (PartSequenceV, PartStep) {
    match outcome {
        PartOutcome::Loaded { from_default } => (
            PartSequenceV { loaded: s.loaded + 1, allow_default: s.allow_default && from_default, ..s },
            PartStep::Continue,
        ),
        PartOutcome::Failed => (s, if s.loaded == 0 { PartStep::Abort } else { PartStep::Finished }),
    }
}

/// The name of the part that a sequence in state `s` loads next.
pub open spec fn next_part_name(s: PartSequenceV) -> Seq<char> {
    s.prefix + decimal(s.first_number + s.loaded)
}

impl PartSequence {
    /// A sequence whose parts are named `prefix` followed by a number that
    /// starts at `first_number`.
    pub fn new(prefix: &str, first_number: u64) -> (s: Self)
        ensures
            s@ == fresh_sequence(prefix@, first_number as nat),
    {
        PartSequence { prefix: String::from_str(prefix), first_number, index: 0, allow_default: true }
    }

    /// The muzzle textures, `muzzle0`, `muzzle1`, ...
    pub fn muzzles() -> (s: Self)
        ensures
            s@ == fresh_sequence("muzzle"@, 0),
    {
        Self::new("muzzle", 0)
    }

    /// The attack sounds, `attack1`, `attack2`, ...
    pub fn attacks() -> (s: Self)
        ensures
            s@ == fresh_sequence("attack"@, 1),
    {
        Self::new("attack", 1)
    }

    /// The hit sounds, `hit1`, `hit2`, ...
    pub fn hits() -> (s: Self)
        ensures
            s@ == fresh_sequence("hit"@, 1),
    {
        Self::new("hit", 1)
    }

    /// How many parts have been loaded.
    pub fn loaded(&self) -> (n: u64)
        ensures
            n == self@.loaded,
    {
        self.index
    }

    /// Whether the next part may come from the default skin.
    pub fn allow_default(&self) -> (b: bool)
        ensures
            b == self@.allow_default,
    {
        self.allow_default
    }

    /// Whether the number of the next part and of the one after it fit in a `u64`.
    pub fn can_continue(&self) -> (b: bool)
        ensures
            b == (self@.first_number + self@.loaded + 1 <= u64::MAX),
    {
        self.index < u64::MAX - self.first_number
    }

    /// The name of the part to load next.
    pub fn part_name(&self) -> (name: String)
        requires
            self@.first_number + self@.loaded <= u64::MAX,
        ensures
            name@ == next_part_name(self@),
    {
        let mut name = self.prefix.clone();
        push_decimal(&mut name, self.first_number + self.index);
        name
    }

    /// Records what became of loading the next part and says what comes next:
    /// a loaded part lets the sequence go on, a failure ends it, and a failure
    /// of the first part aborts the loading.
    pub fn record(&mut self, outcome: PartOutcome) -> (step: PartStep)
        requires
            old(self)@.first_number + old(self)@.loaded + 1 <= u64::MAX,
        ensures
            (final(self)@, step) == after_outcome(old(self)@, outcome),
    {
        match outcome {
            PartOutcome::Loaded { from_default } => {
                self.allow_default = self.allow_default && from_default;
                self.index = self.index + 1;
                PartStep::Continue
            },
            PartOutcome::Failed => {
                if self.index == 0 {
                    PartStep::Abort
                } else {
                    PartStep::Finished
                }
            },
        }
    }
}

/// The state after a run of parts that all loaded, `from_default[k]` telling
/// whether the `k`-th came from the default skin.
pub open spec fn after_loads(s: PartSequenceV, from_default: Seq<bool>) -> PartSequenceV
    decreases from_default.len(),
{
    if from_default.len() == 0 {
        s
    } else {
        after_outcome(after_loads(s, from_default.drop_last()), PartOutcome::Loaded { from_default: from_default.last() }).0
    }
}

/// After a run of loaded parts, the count is the length of the run and the
/// next part may come from the default skin exactly when every part so far
/// did (and the sequence allowed it at the start).
pub proof fn law_default_only_while_all_default(s: PartSequenceV, from_default: Seq<bool>)
    ensures
        after_loads(s, from_default).loaded == s.loaded + from_default.len(),
        after_loads(s, from_default).allow_default == (s.allow_default && forall|k: int|
            0 <= k < from_default.len() ==> #[trigger] from_default[k]),
        after_loads(s, from_default).prefix == s.prefix,
        after_loads(s, from_default).first_number == s.first_number,
    decreases from_default.len(),
{
    if from_default.len() > 0 {
        let rest = from_default.drop_last();
        law_default_only_while_all_default(s, rest);
        if s.allow_default && (forall|k: int| 0 <= k < from_default.len() ==> #[trigger] from_default[k]) {
            assert forall|k: int| 0 <= k < rest.len() implies #[trigger] rest[k] by {
                assert(from_default[k]);
            }
            assert(from_default[from_default.len() - 1]);
        }
        if s.allow_default && (forall|k: int| 0 <= k < rest.len() ==> #[trigger] rest[k]) && from_default.last() {
            assert forall|k: int| 0 <= k < from_default.len() implies #[trigger] from_default[k] by {
                if k < rest.len() {
                    assert(rest[k]);
                }
            }
        }
    }
}

/// A failure aborts the loading exactly when no part has been loaded yet, and
/// otherwise ends the sequence with the parts loaded so far.
pub proof fn law_only_first_failure_aborts(s: PartSequenceV)
    ensures
        (after_outcome(s, PartOutcome::Failed).1 == PartStep::Abort) == (s.loaded == 0),
        after_outcome(s, PartOutcome::Failed).1 != PartStep::Continue,
        after_outcome(s, PartOutcome::Failed).0 == s,
{
}

/// A loaded part lets the sequence go on with one more part loaded, under
/// the same prefix and first number; a part comes from the default skin
/// only if the sequence still allowed that.
pub proof fn law_loaded_part_continues(s: PartSequenceV, from_default: bool)
    ensures
        after_outcome(s, PartOutcome::Loaded { from_default }).1 == PartStep::Continue,
        after_outcome(s, PartOutcome::Loaded { from_default }).0.loaded == s.loaded + 1,
        after_outcome(s, PartOutcome::Loaded { from_default }).0.prefix == s.prefix,
        after_outcome(s, PartOutcome::Loaded { from_default }).0.first_number == s.first_number,
        after_outcome(s, PartOutcome::Loaded { from_default }).0.allow_default == (s.allow_default && from_default),
{
}

/// The next part's name is the prefix followed by the base-10 digits of the
/// first number plus the count of parts loaded so far.
pub proof fn law_part_name_numbers(s: PartSequenceV)
    ensures
        next_part_name(s).subrange(0, s.prefix.len() as int) == s.prefix,
        digits_value(next_part_name(s).subrange(s.prefix.len() as int, next_part_name(s).len() as int))
            == s.first_number + s.loaded,
        forall|k: int| s.prefix.len() <= k < next_part_name(s).len() ==> 48 <= #[trigger] next_part_name(s)[k] as u32 <= 57,
{
    let d = decimal(s.first_number + s.loaded);
    law_decimal_is_base_ten(s.first_number + s.loaded);
    let name = next_part_name(s);
    assert(name.subrange(0, s.prefix.len() as int) =~= s.prefix);
    assert(name.subrange(s.prefix.len() as int, name.len() as int) =~= d);
    assert forall|k: int| s.prefix.len() <= k < name.len() implies 48 <= #[trigger] name[k] as u32 <= 57 by {
        assert(name[k] == d[k - s.prefix.len()]);
    }
}

proof fn lemma_decimal_len(n: nat)
    ensures
        decimal(n).len() >= 1,
        n >= 10 ==> decimal(n).len() >= 2,
    decreases n,
{
    if n >= 10 {
        lemma_decimal_len(n / 10);
    }
}

proof fn lemma_digit_char_injective(a: nat, b: nat)
    requires
        a < 10,
        b < 10,
        digit_char(a) == digit_char(b),
    ensures
        a == b,
{
}

/// Different numbers are written with different digits.
pub proof fn lemma_decimal_injective(n: nat, m: nat)
    requires
        decimal(n) == decimal(m),
    ensures
        n == m,
    decreases n + m,
{
    lemma_decimal_len(n);
    lemma_decimal_len(m);
    if n < 10 && m < 10 {
        assert(decimal(n) == seq![digit_char(n)]);
        assert(decimal(m) == seq![digit_char(m)]);
        assert(decimal(n)[0] == decimal(m)[0]);
        assert(seq![digit_char(n)][0] == digit_char(n));
        assert(seq![digit_char(m)][0] == digit_char(m));
        assert(digit_char(n) == digit_char(m));
        lemma_digit_char_injective(n, m);
    } else if n >= 10 && m >= 10 {
        let dn = decimal(n / 10);
        let dm = decimal(m / 10);
        assert(decimal(n) == dn.push(digit_char(n % 10)));
        assert(decimal(m) == dm.push(digit_char(m % 10)));
        assert(decimal(n).last() == decimal(m).last());
        assert(dn.push(digit_char(n % 10)).last() == digit_char(n % 10));
        assert(dm.push(digit_char(m % 10)).last() == digit_char(m % 10));
        lemma_digit_char_injective(n % 10, m % 10);
        assert(decimal(n).drop_last() =~= dn);
        assert(decimal(m).drop_last() =~= dm);
        lemma_decimal_injective(n / 10, m / 10);
    }
}

/// Every part of a sequence is asked for under its own name: the names for
/// two different counts of loaded parts differ.
pub proof fn law_part_names_differ(s: PartSequenceV, t: PartSequenceV)
    requires
        s.prefix == t.prefix,
        s.first_number == t.first_number,
        s.loaded != t.loaded,
    ensures
        next_part_name(s) != next_part_name(t),
{
    if next_part_name(s) == next_part_name(t) {
        let p = s.prefix;
        let a = decimal(s.first_number + s.loaded);
        let b = decimal(t.first_number + t.loaded);
        assert((p + a).subrange(p.len() as int, (p + a).len() as int) =~= a);
        assert((p + b).subrange(p.len() as int, (p + b).len() as int) =~= b);
        lemma_decimal_injective(s.first_number + s.loaded, t.first_number + t.loaded);
    }
}

/// The number that a string of decimal digits stands for, read with the
/// character codes of the digits (`'0'` is 48).
pub open spec fn digits_value(s: Seq<char>) -> int
    decreases s.len(),
{
    if s.len() == 0 {
        0
    } else {
        digits_value(s.drop_last()) * 10 + (s.last() as u32 - 48)
    }
}

/// Digit `d` is the character whose code is that of `'0'` plus `d`.
pub proof fn law_digit_char_code(d: nat)
    requires
        d < 10,
    ensures
        digit_char(d) as u32 == 48 + d,
{
}

/// `decimal(n)` is the usual base-10 writing of `n`: only the digits `'0'`
/// to `'9'`, no leading zero except for `0` itself, and read back as a
/// number it is `n`.
pub proof fn law_decimal_is_base_ten(n: nat)
    ensures
        decimal(n).len() > 0,
        forall|k: int| 0 <= k < decimal(n).len() ==> 48 <= #[trigger] decimal(n)[k] as u32 <= 57,
        n > 0 ==> decimal(n)[0] as u32 != 48,
        digits_value(decimal(n)) == n,
    decreases n,
{
    law_digit_char_code(n % 10);
    if n < 10 {
        let d = decimal(n);
        assert(d == seq![digit_char(n)]);
        assert(d.drop_last() =~= Seq::<char>::empty());
        assert(d.last() == digit_char(n));
        assert(digits_value(d.drop_last()) == 0);
        assert(digits_value(d) == digits_value(d.drop_last()) * 10 + (d.last() as u32 - 48));
    } else {
        law_decimal_is_base_ten(n / 10);
        let hi = decimal(n / 10);
        let d = decimal(n);
        assert(d == hi.push(digit_char(n % 10)));
        assert(d.drop_last() =~= hi);
        assert(d.last() == digit_char(n % 10));
        assert(d[0] == hi[0]);
        assert forall|k: int| 0 <= k < d.len() implies 48 <= #[trigger] d[k] as u32 <= 57 by {
            if k < hi.len() {
                assert(d[k] == hi[k]);
            }
        }
        vstd::arithmetic::div_mod::lemma_fundamental_div_mod(n as int, 10);
        assert(digits_value(d) == digits_value(hi) * 10 + (d.last() as u32 - 48));
        assert(digits_value(hi) * 10 == (n / 10) * 10);
    }
}

/// How a container item was delivered.
pub enum LoadedItem<D, F> {
    /// As a directory of files.
    Directory(D),
    /// As a single file.
    SingleFile(F),
}

/// Why a ninja could not be loaded from a container item.
#[derive(Clone, Copy, Debug, PartialEq, Eq, Structural)]
pub enum NinjaLoadError {
    /// Ninjas are only loaded from directories.
    SingleFileUnsupported,
}

/// The directory that a ninja is loaded from; a single file is refused.
pub fn ninja_source<D, F>(item: LoadedItem<D, F>) -> (r: Result<D, NinjaLoadError>)
    ensures
        match item {
            LoadedItem::Directory(d) => r == Ok::<D, NinjaLoadError>(d),
            LoadedItem::SingleFile(_) => r == Err::<D, NinjaLoadError>(NinjaLoadError::SingleFileUnsupported),
        },
{
    match item {
        LoadedItem::Directory(d) => Ok(d),
        LoadedItem::SingleFile(_) => Err(NinjaLoadError::SingleFileUnsupported),
    }
}

} // verus!
