//! Recoil patterns: named lists of `(x, y, delay)` steps, and the commands
//! that carry them.

use vstd::prelude::*;
use vstd::string::StringSliceAdditionalSpecFns;
use crate::bounded::{step_values, steps_new, steps_push};
use crate::bounded_map::{
    keyed, name_as_str, name_bytes, name_new, name_push_str, pattern_slots, patterns_get,
    patterns_insert, patterns_key_at, patterns_len, patterns_new, patterns_remove,
    patterns_value_at, slot_of, };
use crate::saturating::clamp_i16;
use crate::scan::first_index;
use crate::text::{decimal_value, equal_to, numeral, position, scan_numeral, is_digit};

verus! {

/// Largest number of patterns that are kept.
pub const MAX_PATTERNS: usize = 16;

/// Largest length of a pattern's name, in bytes.
pub const MAX_PATTERN_NAME_LEN: usize = 32;

/// Largest number of steps in a pattern.
pub const MAX_PATTERN_STEPS: usize = 64;

/// A named recoil pattern.
#[derive(Debug, Clone)]
pub struct RecoilPattern {
    pub name: heapless::String<MAX_PATTERN_NAME_LEN>,
    /// The steps as triplets of x, y and a delay in milliseconds.
    pub steps: heapless::Vec<i16, MAX_PATTERN_STEPS>,
}

/// What a pattern holds, as mathematical values.
pub struct PatternModel {
    pub name: Seq<u8>,
    pub steps: Seq<i16>,
}

impl View for RecoilPattern {
    type V = PatternModel;

    open spec fn view(&self) -> PatternModel {
        PatternModel { name: name_bytes(self.name), steps: step_values(self.steps) }
    }
}

/// The patterns with the name `name`.
pub open spec fn named(name: Seq<u8>) -> spec_fn(PatternModel) -> bool {
    |p: PatternModel| p.name == name
}

/// The position of the pattern named `name` in `patterns`, or their number
/// where there is none.
pub open spec fn index_of(patterns: Seq<PatternModel>, name: Seq<u8>) -> int {
    first_index(patterns, named(name))
}

/// Why `add_pattern` refuses a pattern, or `None` where it does not. The
/// first reason that applies is given: the steps are no triplets, there are
/// more than 64 of them, the name has more than 32 bytes, or the name is new
/// and 16 patterns are kept already.
pub open spec fn add_refusal(patterns: Seq<PatternModel>, name: Seq<u8>, steps: Seq<i16>) -> Option<
    Seq<char>,
> {
    if steps.len() % 3 != 0 {
        Some("Pattern must be x,y,delay triplets"@)
    } else if steps.len() > 64 {
        Some("Pattern too long"@)
    } else if name.len() > 32 {
        Some("Name too long"@)
    } else if index_of(patterns, name) >= patterns.len() && patterns.len() >= 16 {
        Some("Pattern storage full"@)
    } else {
        None
    }
}

/// `patterns` with the pattern `name` set to `steps`: in its place where
/// there is one of that name, behind the others where there is not.
pub open spec fn with_pattern(patterns: Seq<PatternModel>, name: Seq<u8>, steps: Seq<i16>) -> Seq<
    PatternModel,
> {
    let i = index_of(patterns, name);
    if i < patterns.len() {
        patterns.update(i, PatternModel { name, steps })
    } else {
        patterns.push(PatternModel { name, steps })
    }
}

/// `patterns` without the pattern named `name`, whose place the last
/// pattern takes.
pub open spec fn without_pattern(patterns: Seq<PatternModel>, name: Seq<u8>) -> Seq<PatternModel> {
    let i = index_of(patterns, name);
    if i < patterns.len() {
        patterns.update(i, patterns.last()).drop_last()
    } else {
        patterns
    }
}

/// The store of recoil patterns, at most `MAX_PATTERNS` of them, each under
/// its name.
pub struct RecoilManager {
    patterns: heapless::FnvIndexMap<heapless::String<MAX_PATTERN_NAME_LEN>, RecoilPattern, MAX_PATTERNS>,
}

impl View for RecoilManager {
    type V = Seq<PatternModel>;

    closed spec fn view(&self) -> Seq<PatternModel> {
        pattern_slots(self.patterns).map_values(
            |slot: (heapless::String<32>, RecoilPattern)| slot.1@,
        )
    }
}

impl RecoilManager {
    /// Every pattern is kept under its own name, which has at most 32
    /// bytes.
    pub closed spec fn wf(&self) -> bool {
        forall|i: int|
            0 <= i < pattern_slots(self.patterns).len() ==> name_bytes(
                (#[trigger] pattern_slots(self.patterns)[i]).0,
            ) == name_bytes(pattern_slots(self.patterns)[i].1.name) && name_bytes(
                pattern_slots(self.patterns)[i].0,
            ).len() <= 32
    }

    /// No pattern is kept under a name of more than 32 bytes.
    proof fn lemma_names_are_short(&self, name: Seq<u8>)
        requires
            self.wf(),
            name.len() > 32,
        ensures
            index_of(self@, name) == self@.len(),
    {
        let slots = pattern_slots(self.patterns);
        assert forall|j: int| 0 <= j < self@.len() implies !named(name)(#[trigger] self@[j]) by {
            assert(name_bytes(slots[j].0).len() <= 32);
        }
        crate::scan::lemma_first_index_is(self@, named(name), self@.len() as int);
    }

    /// A store without patterns.
    pub fn new() -> (manager: Self)
        ensures
            manager.wf(),
            manager@.len() == 0,
    {
        RecoilManager { patterns: patterns_new() }
    }

    /// Under `wf`, looking a name up among the keys finds what looking it up
    /// among the patterns finds.
    proof fn lemma_slot_is_index(&self, name: Seq<u8>)
        requires
            self.wf(),
        ensures
            slot_of(pattern_slots(self.patterns), name) == index_of(self@, name),
    {
        let slots = pattern_slots(self.patterns);
        crate::scan::lemma_first_index(slots, keyed(name));
        let i = slot_of(slots, name);
        assert forall|j: int| 0 <= j < i implies !named(name)(#[trigger] self@[j]) by {
            assert(!keyed(name)(slots[j]));
        }
        if i < slots.len() {
            assert(keyed(name)(slots[i]));
        }
        crate::scan::lemma_first_index_is(self@, named(name), i);
    }

    /// Adds the pattern `name` with `steps`, or replaces the one of that
    /// name.
    pub fn add_pattern(&mut self, name: &str, steps: &[i16]) -> (r: Result<(), &'static str>)
        requires
            old(self).wf(),
        ensures
            final(self).wf(),
            match add_refusal(old(self)@, name.spec_bytes(), steps@) {
                Some(reason) => final(self)@ == old(self)@ && (r matches Err(e) && e@ == reason),
                None => r is Ok && final(self)@ == with_pattern(
                    old(self)@,
                    name.spec_bytes(),
                    steps@,
                ),
            },
    {
        // A pattern is a list of x, y, delay triplets.
        if steps.len() % 3 != 0 {
            return Err("Pattern must be x,y,delay triplets");
        }
        if steps.len() > MAX_PATTERN_STEPS {
            return Err("Pattern too long");
        }
        let mut pattern_name = name_new();
        if name_push_str(&mut pattern_name, name).is_err() {
            return Err("Name too long");
        }
        let mut key = name_new();
        if name_push_str(&mut key, name).is_err() {
            return Err("Name too long");
        }
        let mut pattern_steps = steps_new();
        let mut k: usize = 0;
        while k < steps.len()
            invariant
                k <= steps@.len() <= 64,
                step_values(pattern_steps) == steps@.take(k as int),
            decreases steps@.len() - k,
        {
            if steps_push(&mut pattern_steps, steps[k]).is_err() {
                return Err("Too many steps");
            }
            proof {
                assert(steps@.take(k as int).push(steps@[k as int]) =~= steps@.take(k + 1));
            }
            k += 1;
        }
        proof {
            assert(steps@.take(steps@.len() as int) =~= steps@);
            assert(Seq::<u8>::empty() + name.spec_bytes() =~= name.spec_bytes());
            self.lemma_slot_is_index(name.spec_bytes());
            crate::scan::lemma_first_index(self@, named(name.spec_bytes()));
        }
        let pattern = RecoilPattern { name: pattern_name, steps: pattern_steps };
        let ghost model = self@;
        match patterns_insert(&mut self.patterns, key, pattern) {
            Ok(_) => {
                proof {
                    assert(self@ =~= with_pattern(model, name.spec_bytes(), steps@));
                }
                Ok(())
            },
            Err(_) => {
                proof {
                    assert(self@ =~= model);
                }
                Err("Pattern storage full")
            },
        }
    }

    /// Drops the pattern named `name` and says whether there was one.
    pub fn delete_pattern(&mut self, name: &str) -> (deleted: bool)
        requires
            old(self).wf(),
        ensures
            final(self).wf(),
            deleted == (index_of(old(self)@, name.spec_bytes()) < old(self)@.len()),
            final(self)@ == without_pattern(old(self)@, name.spec_bytes()),
    {
        let ghost model = self@;
        proof {
            assert(Seq::<u8>::empty() + name.spec_bytes() =~= name.spec_bytes());
            self.lemma_slot_is_index(name.spec_bytes());
            crate::scan::lemma_first_index(self@, named(name.spec_bytes()));
            if name.spec_bytes().len() > 32 {
                self.lemma_names_are_short(name.spec_bytes());
            }
        }
        let mut key = name_new();
        if name_push_str(&mut key, name).is_ok() {
            let taken = patterns_remove(&mut self.patterns, &key);
            proof {
                assert(self@ =~= without_pattern(model, name.spec_bytes()));
            }
            taken.is_some()
        } else {
            false
        }
    }

    /// The pattern named `name`.
    pub fn get_pattern(&self, name: &str) -> (r: Option<&RecoilPattern>)
        requires
            self.wf(),
        ensures
            r is Some <==> index_of(self@, name.spec_bytes()) < self@.len(),
            r matches Some(pattern) ==> pattern@ == self@[index_of(self@, name.spec_bytes())],
    {
        proof {
            assert(Seq::<u8>::empty() + name.spec_bytes() =~= name.spec_bytes());
            self.lemma_slot_is_index(name.spec_bytes());
            crate::scan::lemma_first_index(self@, named(name.spec_bytes()));
            if name.spec_bytes().len() > 32 {
                self.lemma_names_are_short(name.spec_bytes());
            }
        }
        let mut key = name_new();
        if name_push_str(&mut key, name).is_ok() {
            patterns_get(&self.patterns, &key)
        } else {
            None
        }
    }

    /// The names of the patterns, in the order in which the store hands
    /// them out.
    pub fn list_names(&self) -> (names: Vec<&str>)
        requires
            self.wf(),
        ensures
            names@.len() == self@.len(),
            forall|i: int| 0 <= i < names@.len() ==> (#[trigger] names@[i]).spec_bytes() == self@[i].name,
    {
        let n: usize = patterns_len(&self.patterns);
        let mut names: Vec<&str> = Vec::new();
        let mut i: usize = 0;
        while i < n
            invariant
                i <= n,
                n == self@.len(),
                self.wf(),
                names@.len() == i,
                forall|j: int| 0 <= j < i ==> (#[trigger] names@[j]).spec_bytes() == self@[j].name,
            decreases n - i,
        {
            match patterns_key_at(&self.patterns, i) {
                Some(key) => names.push(name_as_str(key)),
                None => {},
            }
            i += 1;
        }
        names
    }

    /// The patterns, in the order in which the store hands them out.
    pub fn list_patterns(&self) -> (patterns: Vec<&RecoilPattern>)
        ensures
            patterns@.len() == self@.len(),
            forall|i: int| 0 <= i < patterns@.len() ==> (#[trigger] patterns@[i])@ == self@[i],
    {
        let n: usize = patterns_len(&self.patterns);
        let mut patterns: Vec<&RecoilPattern> = Vec::new();
        let mut i: usize = 0;
        while i < n
            invariant
                i <= n,
                n == self@.len(),
                patterns@.len() == i,
                forall|j: int| 0 <= j < i ==> (#[trigger] patterns@[j])@ == self@[j],
            decreases n - i,
        {
            match patterns_value_at(&self.patterns, i) {
                Some(pattern) => patterns.push(pattern),
                None => {},
            }
            i += 1;
        }
        patterns
    }

    /// The number of patterns.
    pub fn count(&self) -> (n: usize)
        ensures
            n == self@.len(),
    {
        patterns_len(&self.patterns)
    }
}

/// The number that a numeral stands for, held at the bounds of `i16`.
pub open spec fn saturated_value(negative: bool, digits: Seq<u8>) -> i16 {
    if negative {
        (-clamp_i16(decimal_value(digits) as int)) as i16
    } else {
        clamp_i16(decimal_value(digits) as int)
    }
}

/// The number at the start of `data`; see [`parse_i16`].
pub open spec fn i16_value(data: Seq<u8>) -> i16 {
    saturated_value(numeral(data).negative, numeral(data).digits)
}

/// Reads the signed decimal number at the start of `data`: spaces, an
/// optional minus sign, digits. Text without a digit reads as 0. A number
/// beyond 32767 reads as 32767, and its negative as -32767.
pub fn parse_i16(data: &[u8]) -> (r: Option<i16>)
    ensures
        r == Some(i16_value(data@)),
{
    let (negative, first, end) = scan_numeral(data);
    let mut value: i16 = 0;
    let mut idx: usize = first;
    while idx < end
        invariant
            first <= idx <= end <= data@.len(),
            forall|j: int| first <= j < end ==> is_digit(#[trigger] data@[j]),
            value == clamp_i16(decimal_value(data@.subrange(first as int, idx as int)) as int),
        decreases end - idx,
    {
        proof {
            assert(data@.subrange(first as int, idx + 1).drop_last() =~= data@.subrange(
                first as int,
                idx as int,
            ));
            assert(is_digit(data@[idx as int]));
        }
        value = value.saturating_mul(10).saturating_add((data[idx] - 0x30) as i16);
        idx += 1;
    }
    if negative {
        value = -value;
    }
    Some(value)
}

/// The name in a command of the form `prefix(name)`: what stands between
/// the first `(` behind the first `prefix_len` bytes and the first `)`
/// behind that. There is none where the line is shorter than the prefix and
/// two bytes, or a parenthesis is missing.
pub open spec fn recoil_name(line: Seq<u8>, prefix_len: int) -> Option<Seq<u8>> {
    if line.len() < prefix_len + 2 {
        None
    } else {
        let args = line.skip(prefix_len);
        let open = first_index(args, equal_to(0x28));
        if open >= args.len() {
            None
        } else {
            let inner = args.skip(open + 1);
            let close = first_index(inner, equal_to(0x29));
            if close >= inner.len() {
                None
            } else {
                Some(inner.take(close))
            }
        }
    }
}

/// The pattern name in a delete, get or run command.
pub fn parse_recoil_name<'a>(line: &'a [u8], prefix: &[u8]) -> (r: Option<&'a [u8]>)
    ensures
        r is Some <==> recoil_name(line@, prefix@.len() as int) is Some,
        r matches Some(name) ==> Some(name@) == recoil_name(line@, prefix@.len() as int),
{
    if line.len() < 2 || line.len() - 2 < prefix.len() {
        return None;
    }
    let args = &line[prefix.len()..line.len()];
    assert(args@ =~= line@.skip(prefix@.len() as int));

    let paren_start = match position(args, 0x28) {
        Some(p) => p,
        None => return None,
    };
    let args = &args[paren_start + 1..args.len()];
    assert(args@ =~= line@.skip(prefix@.len() as int).skip(paren_start + 1));

    let paren_end = match position(args, 0x29) {
        Some(p) => p,
        None => return None,
    };
    let name = &args[0..paren_end];
    assert(name@ =~= args@.take(paren_end as int));
    Some(name)
}

/// The numbers in the comma-separated list `list`. A piece without a digit
/// counts as 0, but nothing follows a comma that ends the list.
pub open spec fn step_list(list: Seq<u8>) -> Seq<i16>
    decreases list.len(),
{
    if list.len() == 0 {
        Seq::empty()
    } else {
        let comma = first_index(list, equal_to(0x2C));
        if 0 <= comma < list.len() {
            seq![i16_value(list.take(comma))] + step_list(list.skip(comma + 1))
        } else {
            seq![i16_value(list)]
        }
    }
}

/// The parts of an add command.
pub struct AddCommand {
    pub name: Seq<u8>,
    pub steps: Seq<i16>,
}

/// The name and the steps in a command of the form
/// `nozen.recoil.add(name){x,y,delay,...}`. The first 17 bytes are taken
/// for the command word and not looked at. There is no result where a
/// parenthesis or a brace is missing or more than 64 steps are listed.
pub open spec fn recoil_add(line: Seq<u8>) -> Option<AddCommand> {
    if line.len() < 17 {
        None
    } else {
        let args = line.skip(17);
        let name_end = first_index(args, equal_to(0x29));
        if name_end >= args.len() {
            None
        } else {
            let behind = args.skip(name_end + 1);
            let open = first_index(behind, equal_to(0x7B));
            if open >= behind.len() {
                None
            } else {
                let data = behind.skip(open + 1);
                let close = first_index(data, equal_to(0x7D));
                if close >= data.len() || step_list(data.take(close)).len() > 64 {
                    None
                } else {
                    Some(AddCommand { name: args.take(name_end), steps: step_list(data.take(close)) })
                }
            }
        }
    }
}

/// Reads the name and the steps of an add command.
pub fn parse_recoil_add(line: &[u8]) -> (r: Option<(&[u8], heapless::Vec<i16, 64>)>)
    ensures
        r is Some <==> recoil_add(line@) is Some,
        r matches Some(found) ==> recoil_add(line@) == Some(
            AddCommand { name: found.0@, steps: step_values(found.1) },
        ),
{
    let args_start: usize = 17;
    if line.len() < args_start {
        return None;
    }
    let args = &line[args_start..line.len()];
    assert(args@ =~= line@.skip(17));

    let name_end = match position(args, 0x29) {
        Some(p) => p,
        None => return None,
    };
    let name = &args[0..name_end];
    assert(name@ =~= args@.take(name_end as int));

    let behind = &args[name_end + 1..args.len()];
    assert(behind@ =~= args@.skip(name_end + 1));
    let pattern_start = match position(behind, 0x7B) {
        Some(p) => p,
        None => return None,
    };
    let pattern_data = &behind[pattern_start + 1..behind.len()];
    assert(pattern_data@ =~= behind@.skip(pattern_start + 1));

    let pattern_end = match position(pattern_data, 0x7D) {
        Some(p) => p,
        None => return None,
    };
    let pattern_str = &pattern_data[0..pattern_end];
    assert(pattern_str@ =~= pattern_data@.take(pattern_end as int));

    let ghost list = pattern_str@;
    let mut steps = steps_new();
    let mut start: usize = 0;
    let mut i: usize = 0;
    proof {
        assert(list.skip(0) =~= list);
    }
    while i < pattern_str.len()
        invariant
            start <= i <= list.len(),
            i == list.len() ==> start == i,
            list == pattern_str@,
            recoil_add(line@) == (if step_list(list).len() > 64 {
                None
            } else {
                Some(AddCommand { name: name@, steps: step_list(list) })
            }),
            step_values(steps).len() <= 64,
            step_list(list) == step_values(steps) + step_list(list.skip(start as int)),
            forall|j: int| start <= j < i ==> list[j] != 0x2C,
        decreases list.len() - i,
    {
        if pattern_str[i] == 0x2C || i == pattern_str.len() - 1 {
            let end: usize = if pattern_str[i] == 0x2C {
                i
            } else {
                i + 1
            };
            let num_str = &pattern_str[start..end];
            let ghost rest = list.skip(start as int);
            proof {
                assert(num_str@ =~= rest.take(end - start));
                assert forall|j: int| 0 <= j < end - start implies !equal_to(0x2C)(
                    #[trigger] rest[j],
                ) by {
                    assert(rest[j] == list[start + j]);
                }
                if pattern_str[i as int] == 0x2C {
                    crate::scan::lemma_first_index_is(rest, equal_to(0x2C), i - start);
                    assert(rest.skip(i - start + 1) =~= list.skip(i + 1));
                } else {
                    crate::scan::lemma_first_index_is(rest, equal_to(0x2C), rest.len() as int);
                    assert(rest.take(end - start) =~= rest);
                    assert(list.skip(i + 1).len() == 0);
                }
            }
            if let Some(value) = parse_i16(num_str) {
                if steps_push(&mut steps, value).is_err() {
                    proof {
                        assert(step_list(list).len() > 64);
                    }
                    return None;
                }
            } else {
                return None;
            }
            proof {
                let done = step_values(steps);
                assert(done + step_list(list.skip(i + 1)) =~= done.drop_last() + (seq![i16_value(
                    num_str@,
                )] + step_list(list.skip(i + 1))));
            }
            start = i + 1;
        }
        i += 1;
    }
    proof {
        assert(list.skip(start as int).len() == 0);
        assert(step_values(steps) + Seq::<i16>::empty() =~= step_values(steps));
    }
    Some((name, steps))
}

} // verus!
