//! The products of a conversion: how a file's name tells what it is, what
//! an hour must have produced, and how names are chosen and rewritten.

use crate::text::{
    ascii_bytes, bytes_eq, contains, contains_seq, copy_range, ends_with, ends_with_seq, find,
    find_byte, first_byte, first_occurrence, lemma_first_occurrence_is_first, lit, lower_of,
    decimal_of, lemma_decimal_injective, lemma_decimal_round_trip, occurs_at, push_decimal,
    push_text, push_zero_padded, sort_names, sorted_names, starts_with, to_ascii_lowercase, views,
    zero_padded,
};
use vstd::set_lib::{lemma_int_range, lemma_len_subset, set_int_range};
use vstd::prelude::*;
use vstd::slice::*;
use vstd::string::*;

verus! {

/// What a file in the converter's output is.
#[derive(Clone, Copy, Debug, PartialEq, Eq, Structural)]
pub enum OutputKind {
    /// Observation data.
    Observation,
    /// Navigation data.
    Navigation,
    /// No product.
    Other,
}

/// A lower-case name without a final `.gz`.
pub open spec fn without_gz(lower_name: Seq<u8>) -> Seq<u8> {
    if ends_with_seq(lower_name, lit(".gz"@)) {
        lower_name.subrange(0, lower_name.len() - 3)
    } else {
        lower_name
    }
}

/// The kind that the last letter of a short-form name tells, a final `.gz`
/// set aside: `o` and `d` are observations, `n`, `g`, `l`, `p` and `q` are
/// navigation data.
pub open spec fn short_kind(lower_name: Seq<u8>) -> Option<OutputKind> {
    let trimmed = without_gz(lower_name);
    if trimmed.len() == 0 {
        None
    } else {
        let last = trimmed.last();
        if last == 0x6f || last == 0x64 {
            Some(OutputKind::Observation)
        } else if last == 0x6e || last == 0x67 || last == 0x6c || last == 0x70 || last == 0x71 {
            Some(OutputKind::Navigation)
        } else {
            None
        }
    }
}

/// Tells the kind of a short-form name, already in lower case.
pub fn classify_rinex2_short_kind(lower_name: &[u8]) -> (r: Option<OutputKind>)
    ensures
        r == short_kind(lower_name@),
{
    proof {
        reveal_strlit(".gz");
    }
    let end: usize = if ends_with(lower_name, ascii_bytes(".gz")) {
        lower_name.len() - 3
    } else {
        lower_name.len()
    };
    proof {
        assert(lower_name@.subrange(0, lower_name.len() as int) =~= lower_name@);
    }
    if end == 0 {
        return None;
    }
    let last: u8 = lower_name[end - 1];
    if last == 0x6f || last == 0x64 {
        Some(OutputKind::Observation)
    } else if last == 0x6e || last == 0x67 || last == 0x6c || last == 0x70 || last == 0x71 {
        Some(OutputKind::Navigation)
    } else {
        None
    }
}

/// The kind of a file by its name, letter case set aside. The rules apply
/// in this order: a bundle of navigation files; the long names, which say
/// `_MN.` or `_MO.`; the extensions `.crx` and `.rnx`, with or without
/// `.gz`, which count as observations; the short names, by their last
/// letter.
pub open spec fn kind_of_name(name: Seq<u8>) -> OutputKind {
    let lower = lower_of(name);
    if contains_seq(lower, lit("_navset.tar.gz"@)) {
        OutputKind::Navigation
    } else if contains_seq(lower, lit("_mn."@)) {
        OutputKind::Navigation
    } else if contains_seq(lower, lit("_mo."@)) {
        OutputKind::Observation
    } else if ends_with_seq(lower, lit(".crx"@)) || ends_with_seq(lower, lit(".crx.gz"@))
        || ends_with_seq(lower, lit(".rnx"@)) || ends_with_seq(lower, lit(".rnx.gz"@)) {
        OutputKind::Observation
    } else {
        match short_kind(lower) {
            Some(kind) => kind,
            None => OutputKind::Other,
        }
    }
}

/// Tells the kind of a file by its name.
pub fn classify_output_name(name: &[u8]) -> (r: OutputKind)
    ensures
        r == kind_of_name(name@),
{
    proof {
        reveal_strlit("_navset.tar.gz");
        reveal_strlit("_mn.");
        reveal_strlit("_mo.");
        reveal_strlit(".crx");
        reveal_strlit(".crx.gz");
        reveal_strlit(".rnx");
        reveal_strlit(".rnx.gz");
    }
    let lower_vec = to_ascii_lowercase(name);
    let lower = lower_vec.as_slice();
    if contains(lower, ascii_bytes("_navset.tar.gz")) {
        return OutputKind::Navigation;
    }
    if contains(lower, ascii_bytes("_mn.")) {
        return OutputKind::Navigation;
    }
    if contains(lower, ascii_bytes("_mo.")) {
        return OutputKind::Observation;
    }
    if ends_with(lower, ascii_bytes(".crx")) || ends_with(lower, ascii_bytes(".crx.gz")) {
        return OutputKind::Observation;
    }
    if ends_with(lower, ascii_bytes(".rnx")) || ends_with(lower, ascii_bytes(".rnx.gz")) {
        return OutputKind::Observation;
    }
    match classify_rinex2_short_kind(lower) {
        Some(kind) => kind,
        None => OutputKind::Other,
    }
}

/// Tells whether a file is a product that is archived.
pub fn is_output_product_name(name: &[u8]) -> (r: bool)
    ensures
        r == (kind_of_name(name@) != OutputKind::Other),
{
    match classify_output_name(name) {
        OutputKind::Other => false,
        _ => true,
    }
}

/// One of the names is of the given kind.
pub open spec fn has_kind(names: Seq<Seq<u8>>, kind: OutputKind) -> bool {
    exists|i: int| 0 <= i < names.len() && kind_of_name(#[trigger] names[i]) == kind
}

/// What an hour's output lacks.
#[derive(Clone, Copy, Debug, PartialEq, Eq, Structural)]
pub enum MissingProduct {
    /// No observation product.
    Observation,
    /// No navigation product, though one was asked for.
    Navigation,
}

/// A refused hour: what is missing, and the message that says so.
#[derive(Clone, Debug)]
pub struct ValidationError {
    pub missing: MissingProduct,
    pub message: Vec<u8>,
}

/// What the products of an hour lack: an observation product is always
/// needed, a navigation product unless navigation was switched off.
pub open spec fn missing_product(names: Seq<Seq<u8>>, skip_nav: bool) -> Option<MissingProduct> {
    if !has_kind(names, OutputKind::Observation) {
        Some(MissingProduct::Observation)
    } else if !skip_nav && !has_kind(names, OutputKind::Navigation) {
        Some(MissingProduct::Navigation)
    } else {
        None
    }
}

/// The texts of a list, with `sep` between each two.
pub open spec fn joined(items: Seq<Seq<u8>>, sep: Seq<u8>) -> Seq<u8>
    decreases items.len(),
{
    if items.len() == 0 {
        Seq::<u8>::empty()
    } else if items.len() == 1 {
        items[0]
    } else {
        joined(items.drop_last(), sep) + sep + items.last()
    }
}

/// How a message about a missing product begins.
pub open spec fn missing_intro(missing: MissingProduct) -> Seq<u8> {
    match missing {
        MissingProduct::Observation => lit("no observation product generated for "@),
        MissingProduct::Navigation => lit("no navigation product generated for "@),
    }
}

/// The message about a missing product: it names the hour and lists what
/// was collected.
pub open spec fn missing_message(missing: MissingProduct, label: Seq<u8>, names: Seq<Seq<u8>>) -> Seq<
    u8,
> {
    missing_intro(missing) + label + lit("; collected outputs: "@) + joined(names, lit(", "@))
}

/// Joins texts with `, ` between them.
fn join_names(names: &[Vec<u8>]) -> (r: Vec<u8>)
    ensures
        r@ == joined(views(names@), lit(", "@)),
{
    proof {
        reveal_strlit(", ");
    }
    let ghost all = views(names@);
    let mut out: Vec<u8> = Vec::new();
    let mut i: usize = 0;
    while i < names.len()
        invariant
            i <= names.len(),
            all == views(names@),
            out@ == joined(all.subrange(0, i as int), lit(", "@)),
        decreases names.len() - i,
    {
        proof {
            assert(all.subrange(0, i + 1).drop_last() =~= all.subrange(0, i as int));
            assert(all.subrange(0, i + 1).last() == names@[i as int]@);
            assert(all.subrange(0, i + 1)[0] == all[0]);
        }
        if i > 0 {
            proof {
                reveal_strlit(", ");
            }
            push_text(&mut out, ", ");
        }
        out.extend_from_slice(names[i].as_slice());
        proof {
            if i == 0 {
                assert(out@ =~= names@[0]@);
            }
        }
        i += 1;
    }
    proof {
        assert(all.subrange(0, names.len() as int) =~= all);
    }
    out
}

/// Writes the message about a missing product.
fn make_missing_message(missing: MissingProduct, label: &[u8], names: &[Vec<u8>]) -> (r: Vec<u8>)
    ensures
        r@ == missing_message(missing, label@, views(names@)),
{
    proof {
        reveal_strlit("no observation product generated for ");
        reveal_strlit("no navigation product generated for ");
        reveal_strlit("; collected outputs: ");
    }
    let mut out: Vec<u8> = Vec::new();
    match missing {
        MissingProduct::Observation => {
            push_text(&mut out, "no observation product generated for ");
        },
        MissingProduct::Navigation => {
            push_text(&mut out, "no navigation product generated for ");
        },
    }
    out.extend_from_slice(label);
    push_text(&mut out, "; collected outputs: ");
    let list = join_names(names);
    out.extend_from_slice(list.as_slice());
    proof {
        assert(out@ =~= missing_message(missing, label@, views(names@)));
    }
    out
}

/// Checks that an hour produced what it must. `names` are the file names of
/// what was collected, `label` names the hour in messages.
pub fn validate_hour_outputs(names: &[Vec<u8>], skip_nav: bool, label: &[u8]) -> (r: Result<
    (),
    ValidationError,
>)
    ensures
        match r {
            Ok(()) => missing_product(views(names@), skip_nav).is_none(),
            Err(e) => missing_product(views(names@), skip_nav) == Some(e.missing) && e.message@
                == missing_message(e.missing, label@, views(names@)),
        },
{
    let ghost all = views(names@);
    let mut has_obs = false;
    let mut has_nav = false;
    let mut i: usize = 0;
    while i < names.len()
        invariant
            i <= names.len(),
            all == views(names@),
            has_obs == has_kind(all.subrange(0, i as int), OutputKind::Observation),
            has_nav == has_kind(all.subrange(0, i as int), OutputKind::Navigation),
        decreases names.len() - i,
    {
        let ghost seen = all.subrange(0, i as int);
        let ghost next = all.subrange(0, i + 1);
        let kind = classify_output_name(names[i].as_slice());
        proof {
            assert(next[i as int] == names@[i as int]@);
            assert forall|k: OutputKind| has_kind(next, k) == (has_kind(seen, k) || kind == k) by {
                if has_kind(seen, k) {
                    let j = choose|j: int| 0 <= j < seen.len() && kind_of_name(#[trigger] seen[j]) == k;
                    assert(next[j] == seen[j]);
                }
                if has_kind(next, k) {
                    let j = choose|j: int| 0 <= j < next.len() && kind_of_name(#[trigger] next[j]) == k;
                    if j < i {
                        assert(seen[j] == next[j]);
                    }
                }
            }
        }
        match kind {
            OutputKind::Observation => {
                has_obs = true;
            },
            OutputKind::Navigation => {
                has_nav = true;
            },
            OutputKind::Other => {},
        }
        i += 1;
    }
    proof {
        assert(all.subrange(0, names.len() as int) =~= all);
    }
    if !has_obs {
        let missing = MissingProduct::Observation;
        return Err(ValidationError { missing, message: make_missing_message(missing, label, names) });
    }
    if !skip_nav && !has_nav {
        let missing = MissingProduct::Navigation;
        return Err(ValidationError { missing, message: make_missing_message(missing, label, names) });
    }
    Ok(())
}

/// The message about a missing product names the hour.
pub proof fn lemma_message_names_hour(missing: MissingProduct, label: Seq<u8>, names: Seq<Seq<u8>>)
    ensures
        contains_seq(missing_message(missing, label, names), label),
{
    let intro = missing_intro(missing);
    let message = missing_message(missing, label, names);
    assert(message.subrange(intro.len() as int, (intro.len() + label.len()) as int) =~= label);
    assert(occurs_at(message, label, intro.len() as int));
}

/// A name that says `_MN.`, in either case, is navigation data.
pub open spec fn says_navigation(name: Seq<u8>) -> bool {
    contains_seq(lower_of(name), lit("_mn."@))
}

/// A name that says `_MO.`, in either case, and neither `_MN.` nor that it is
/// a bundle of navigation files, is observation data.
pub open spec fn says_observation(name: Seq<u8>) -> bool {
    &&& contains_seq(lower_of(name), lit("_mo."@))
    &&& !contains_seq(lower_of(name), lit("_mn."@))
    &&& !contains_seq(lower_of(name), lit("_navset.tar.gz"@))
}

/// With a name that says `_MO.` and one that says `_MN.` among the products,
/// an hour is valid whether navigation data is asked for or not.
pub proof fn lemma_long_names_validate(names: Seq<Seq<u8>>, obs: int, nav: int, skip_nav: bool)
    requires
        0 <= obs < names.len(),
        0 <= nav < names.len(),
        says_observation(names[obs]),
        says_navigation(names[nav]),
    ensures
        missing_product(names, skip_nav).is_none(),
{
    assert(kind_of_name(names[obs]) == OutputKind::Observation);
    assert(kind_of_name(names[nav]) == OutputKind::Navigation);
}

/// With a name that says `_MO.` but no navigation product, an hour for
/// which navigation data is asked lacks it, and the message names the hour.
pub proof fn lemma_missing_navigation(names: Seq<Seq<u8>>, obs: int, label: Seq<u8>)
    requires
        0 <= obs < names.len(),
        says_observation(names[obs]),
        !has_kind(names, OutputKind::Navigation),
    ensures
        missing_product(names, false) == Some(MissingProduct::Navigation),
        missing_product(names, true).is_none(),
        contains_seq(missing_message(MissingProduct::Navigation, label, names), label),
{
    assert(kind_of_name(names[obs]) == OutputKind::Observation);
    lemma_message_names_hour(MissingProduct::Navigation, label, names);
}

/// The sampling interval as product names write it: the seconds in at least
/// two digits, then `S`.
pub open spec fn sampling_token(seconds: u32) -> Seq<u8> {
    zero_padded(seconds as nat, 2) + lit("S"@)
}

/// Writes the sampling interval as product names write it.
pub fn sampling_token_from_seconds(seconds: u32) -> (r: Vec<u8>)
    ensures
        r@ == sampling_token(seconds),
{
    proof {
        reveal_strlit("S");
    }
    let mut out: Vec<u8> = Vec::new();
    push_zero_padded(&mut out, seconds as u64, 2);
    push_text(&mut out, "S");
    proof {
        assert(out@ =~= sampling_token(seconds));
    }
    out
}

/// Every byte is a decimal digit.
pub open spec fn all_decimal(s: Seq<u8>) -> bool {
    forall|i: int| 0 <= i < s.len() ==> 0x30 <= #[trigger] s[i] <= 0x39
}

/// Where the epoch of a long-form name stands: it begins right after the
/// first `_R_` and ends before the next `_`.
pub open spec fn epoch_bounds(name: Seq<u8>) -> Option<(int, int)> {
    match first_occurrence(name, lit("_R_"@)) {
        None => None,
        Some(marker) => {
            let start = marker + 3;
            match first_byte(name.subrange(start, name.len() as int), 0x5f) {
                None => None,
                Some(rel) => Some((start, start + rel)),
            }
        },
    }
}

/// A long-form name with its epoch replaced by `target`. Only an epoch of
/// eleven digits that differs from `target` is replaced; any other name is
/// left alone.
pub open spec fn rewritten_name(name: Seq<u8>, target: Seq<u8>) -> Option<Seq<u8>> {
    match epoch_bounds(name) {
        None => None,
        Some(bounds) => {
            let epoch = name.subrange(bounds.0, bounds.1);
            if epoch.len() != 11 || !all_decimal(epoch) || epoch == target {
                None
            } else {
                Some(name.subrange(0, bounds.0) + target + name.subrange(bounds.1, name.len() as int))
            }
        },
    }
}

/// Tells whether every byte is a decimal digit.
fn is_all_decimal(s: &[u8]) -> (r: bool)
    ensures
        r == all_decimal(s@),
{
    let mut i: usize = 0;
    while i < s.len()
        invariant
            i <= s.len(),
            forall|j: int| 0 <= j < i ==> 0x30 <= #[trigger] s@[j] <= 0x39,
        decreases s.len() - i,
    {
        if s[i] < 0x30 || s[i] > 0x39 {
            return false;
        }
        i += 1;
    }
    true
}

/// Replaces the epoch of a long-form name by the epoch of the hour that is
/// being converted.
pub fn rewrite_long_name_epoch(file_name: &[u8], target_epoch: &[u8]) -> (r: Option<Vec<u8>>)
    ensures
        match r {
            Some(name) => rewritten_name(file_name@, target_epoch@) == Some(name@),
            None => rewritten_name(file_name@, target_epoch@).is_none(),
        },
{
    proof {
        reveal_strlit("_R_");
    }
    let marker: usize = match find(file_name, ascii_bytes("_R_")) {
        Some(at) => at,
        None => {
            return None;
        },
    };
    proof {
        lemma_first_occurrence_is_first(file_name@, lit("_R_"@));
        assert(lit("_R_"@).len() == 3);
        assert(occurs_at(file_name@, lit("_R_"@), marker as int));
        assert(marker + 3 <= file_name@.len());
    }
    let total: usize = file_name.len();
    assert(marker + 3 <= total);
    let start: usize = marker + 3;
    let remaining = slice_subrange(file_name, start, file_name.len());
    let rel: usize = match find_byte(remaining, 0x5f) {
        Some(at) => at,
        None => {
            return None;
        },
    };
    let end: usize = start + rel;
    let epoch = slice_subrange(file_name, start, end);
    if epoch.len() != 11 || !is_all_decimal(epoch) || bytes_eq(epoch, target_epoch) {
        return None;
    }
    let mut out: Vec<u8> = Vec::new();
    out.extend_from_slice(slice_subrange(file_name, 0, start));
    out.extend_from_slice(target_epoch);
    out.extend_from_slice(slice_subrange(file_name, end, file_name.len()));
    proof {
        assert(out@ =~= file_name@.subrange(0, start as int) + target_epoch@ + file_name@.subrange(
            end as int,
            file_name.len() as int,
        ));
    }
    Some(out)
}

/// The names tried for a file moved into a directory: first its own name,
/// then the name with `.dup` and a number from one on.
pub open spec fn destination_candidate(name: Seq<u8>, attempt: nat) -> Seq<u8> {
    if attempt == 0 {
        name
    } else {
        name + lit(".dup"@) + decimal_of(attempt)
    }
}

/// `attempt` is the first whose name `existing` does not hold.
pub open spec fn is_first_free(existing: Seq<Seq<u8>>, name: Seq<u8>, attempt: nat) -> bool {
    &&& !existing.contains(destination_candidate(name, attempt))
    &&& forall|j: nat| j < attempt ==> existing.contains(#[trigger] destination_candidate(name, j))
}

/// `result` is the first candidate for `name` that `existing` does not
/// hold.
pub open spec fn is_unique_destination(
    existing: Seq<Seq<u8>>,
    name: Seq<u8>,
    result: Seq<u8>,
) -> bool {
    exists|attempt: nat|
        result == #[trigger] destination_candidate(name, attempt) && is_first_free(
            existing,
            name,
            attempt,
        )
}

/// The name under which a file is moved into a directory that holds the
/// files `existing`: the first candidate that is free.
pub open spec fn unique_destination(existing: Seq<Seq<u8>>, name: Seq<u8>) -> Seq<u8> {
    destination_candidate(name, choose|attempt: nat| is_first_free(existing, name, attempt))
}

/// The first free attempt is the one that `unique_destination` takes.
pub proof fn lemma_first_free(existing: Seq<Seq<u8>>, name: Seq<u8>, attempt: nat)
    requires
        is_first_free(existing, name, attempt),
    ensures
        unique_destination(existing, name) == destination_candidate(name, attempt),
        !existing.contains(unique_destination(existing, name)),
{
    let chosen = choose|k: nat| is_first_free(existing, name, k);
    assert(is_first_free(existing, name, chosen));
    if chosen < attempt {
        assert(existing.contains(destination_candidate(name, chosen)));
    }
    if attempt < chosen {
        assert(existing.contains(destination_candidate(name, attempt)));
    }
}

/// Different attempts try different names.
pub proof fn lemma_candidates_differ(name: Seq<u8>, a: nat, b: nat)
    requires
        a != b,
    ensures
        destination_candidate(name, a) != destination_candidate(name, b),
{
    let ca = destination_candidate(name, a);
    let cb = destination_candidate(name, b);
    lemma_decimal_round_trip(a);
    lemma_decimal_round_trip(b);
    if a != 0 && b != 0 {
        if ca == cb {
            let head = name + lit(".dup"@);
            assert(ca.subrange(head.len() as int, ca.len() as int) =~= decimal_of(a));
            assert(cb.subrange(head.len() as int, cb.len() as int) =~= decimal_of(b));
            lemma_decimal_injective(a, b);
        }
    } else if a == 0 {
        assert(cb.len() > name.len());
    } else {
        assert(ca.len() > name.len());
    }
}

/// Writes the name tried at an attempt.
pub fn make_destination_candidate(file_name: &[u8], attempt: u64) -> (r: Vec<u8>)
    ensures
        r@ == destination_candidate(file_name@, attempt as nat),
{
    let mut out: Vec<u8> = Vec::new();
    out.extend_from_slice(file_name);
    if attempt != 0 {
        proof {
            reveal_strlit(".dup");
        }
        push_text(&mut out, ".dup");
        push_decimal(&mut out, attempt);
    }
    proof {
        assert(out@ =~= destination_candidate(file_name@, attempt as nat));
    }
    out
}

/// Finds a name in a list.
fn position_of_name(names: &[Vec<u8>], name: &[u8]) -> (r: Option<usize>)
    ensures
        match r {
            Some(at) => at < names.len() && names@[at as int]@ == name@,
            None => !views(names@).contains(name@),
        },
{
    let mut i: usize = 0;
    while i < names.len()
        invariant
            i <= names.len(),
            forall|j: int| 0 <= j < i ==> names@[j]@ != name@,
        decreases names.len() - i,
    {
        if bytes_eq(names[i].as_slice(), name) {
            return Some(i);
        }
        i += 1;
    }
    proof {
        if views(names@).contains(name@) {
            let j = choose|j: int| 0 <= j < views(names@).len() && views(names@)[j] == name@;
            assert(names@[j]@ == name@);
        }
    }
    None
}

/// Places in a list of `n` that hold different tried names are at most `n`.
proof fn lemma_slots_bounded(slots: Seq<int>, n: int)
    requires
        0 <= n,
        slots.no_duplicates(),
        forall|i: int| 0 <= i < slots.len() ==> 0 <= #[trigger] slots[i] < n,
    ensures
        slots.len() <= n,
{
    slots.unique_seq_to_set();
    lemma_int_range(0, n);
    assert(slots.to_set().subset_of(set_int_range(0, n))) by {
        assert forall|x: int| slots.to_set().contains(x) implies set_int_range(0, n).contains(x) by {
            let i = choose|i: int| 0 <= i < slots.len() && slots[i] == x;
            assert(0 <= slots[i] < n);
        }
    }
    lemma_len_subset(slots.to_set(), set_int_range(0, n));
}

/// Chooses the name under which a file is moved into a directory that holds
/// the files `existing`: its own name if that is free, else the first free
/// one among the names with `.dup` and a number. Nothing that is there is
/// ever overwritten.
pub fn unique_destination_name(existing: &[Vec<u8>], file_name: &[u8]) -> (r: Vec<u8>)
    ensures
        r@ == unique_destination(views(existing@), file_name@),
        !views(existing@).contains(r@),
        is_unique_destination(views(existing@), file_name@, r@),
{
    let ghost all = views(existing@);
    let ghost name = file_name@;
    let ghost mut slots: Seq<int> = Seq::empty();
    let mut attempt: u64 = 0;
    loop
        invariant
            all == views(existing@),
            name == file_name@,
            slots.len() == attempt,
            attempt <= existing.len(),
            slots.no_duplicates(),
            forall|i: int|
                0 <= i < slots.len() ==> 0 <= #[trigger] slots[i] < existing.len() && all[slots[i]]
                    == destination_candidate(name, i as nat),
        decreases existing.len() - attempt,
    {
        let candidate = make_destination_candidate(file_name, attempt);
        match position_of_name(existing, candidate.as_slice()) {
            None => {
                proof {
                    assert forall|j: nat| j < attempt implies all.contains(
                        #[trigger] destination_candidate(name, j),
                    ) by {
                        assert(all[slots[j as int]] == destination_candidate(name, j));
                    }
                    assert(is_first_free(all, name, attempt as nat));
                    lemma_first_free(all, name, attempt as nat);
                }
                return candidate;
            },
            Some(at) => {
                proof {
                    assert(all[at as int] == destination_candidate(name, attempt as nat));
                    assert forall|i: int| 0 <= i < slots.len() implies slots[i] != at by {
                        lemma_candidates_differ(name, i as nat, attempt as nat);
                    }
                    slots = slots.push(at as int);
                    lemma_slots_bounded(slots, existing.len() as int);
                }
            },
        }
        attempt += 1;
    }
}

/// An entry of a directory listing, as plain values: its name, whether it
/// is a regular file, when it was last changed (in nanoseconds since 1970,
/// where the file system tells) and its size.
#[derive(Clone, Debug)]
pub struct FileInfo {
    pub name: Vec<u8>,
    pub is_file: bool,
    pub modified: Option<u128>,
    pub len: u64,
}

/// What was seen of a product before or after a conversion.
#[derive(Clone, Debug)]
pub struct ProductSnapshot {
    pub path: Vec<u8>,
    pub modified: Option<u128>,
    pub len: u64,
}

/// The names of the entries that `keep` accepts, in the order of the
/// listing.
pub open spec fn kept_names(entries: Seq<FileInfo>, keep: spec_fn(FileInfo) -> bool) -> Seq<
    Seq<u8>,
>
    decreases entries.len(),
{
    if entries.len() == 0 {
        Seq::<Seq<u8>>::empty()
    } else {
        let before = kept_names(entries.drop_last(), keep);
        if keep(entries.last()) {
            before.push(entries.last().name@)
        } else {
            before
        }
    }
}

/// A name with the extension `ubx`: it ends in `.ubx` and something stands
/// before that.
pub open spec fn has_ubx_extension(name: Seq<u8>) -> bool {
    name.len() > 4 && ends_with_seq(name, lit(".ubx"@))
}

/// A segment file of the hour whose key is `prefix`: a regular file with
/// the extension `ubx` whose name begins with the key.
pub open spec fn is_hour_segment(entry: FileInfo, prefix: Seq<u8>) -> bool {
    entry.is_file && has_ubx_extension(entry.name@) && occurs_at(entry.name@, prefix, 0)
}

/// Picks the segment files of an hour out of a listing of the data
/// directory, in the order of their names, which is the order in which they
/// were written.
pub fn list_hour_ubx_files(entries: &[FileInfo], prefix: &[u8]) -> (r: Vec<Vec<u8>>)
    ensures
        sorted_names(views(r@)),
        views(r@).to_multiset() == kept_names(
            entries@,
            |e: FileInfo| is_hour_segment(e, prefix@),
        ).to_multiset(),
{
    let ghost keep = |e: FileInfo| is_hour_segment(e, prefix@);
    let mut found: Vec<Vec<u8>> = Vec::new();
    let mut i: usize = 0;
    proof {
        assert(views(found@) =~= kept_names(entries@.subrange(0, 0), keep));
    }
    while i < entries.len()
        invariant
            i <= entries.len(),
            keep == |e: FileInfo| is_hour_segment(e, prefix@),
            views(found@) == kept_names(entries@.subrange(0, i as int), keep),
        decreases entries.len() - i,
    {
        proof {
            reveal_strlit(".ubx");
            assert(entries@.subrange(0, i + 1).drop_last() =~= entries@.subrange(0, i as int));
            assert(entries@.subrange(0, i + 1).last() == entries@[i as int]);
        }
        let entry = &entries[i];
        let name = entry.name.as_slice();
        if entry.is_file && name.len() > 4 && ends_with(name, ascii_bytes(".ubx")) && starts_with(
            name,
            prefix,
        ) {
            let ghost before = views(found@);
            let copy = copy_range(name, 0, name.len());
            proof {
                assert(copy@ =~= name@);
            }
            found.push(copy);
            proof {
                assert(views(found@) =~= before.push(name@));
            }
        }
        i += 1;
    }
    proof {
        assert(entries@.subrange(0, entries.len() as int) =~= entries@);
    }
    sort_names(found)
}

/// A product in a listing: a regular file whose name tells a product.
pub open spec fn is_product_entry(entry: FileInfo) -> bool {
    entry.is_file && kind_of_name(entry.name@) != OutputKind::Other
}

/// Picks the products out of a listing of a directory, in the order of
/// their names.
pub fn collect_output_products_in_dir(entries: &[FileInfo]) -> (r: Vec<Vec<u8>>)
    ensures
        sorted_names(views(r@)),
        views(r@).to_multiset() == kept_names(
            entries@,
            |e: FileInfo| is_product_entry(e),
        ).to_multiset(),
{
    let ghost keep = |e: FileInfo| is_product_entry(e);
    let mut found: Vec<Vec<u8>> = Vec::new();
    let mut i: usize = 0;
    proof {
        assert(views(found@) =~= kept_names(entries@.subrange(0, 0), keep));
    }
    while i < entries.len()
        invariant
            i <= entries.len(),
            keep == |e: FileInfo| is_product_entry(e),
            views(found@) == kept_names(entries@.subrange(0, i as int), keep),
        decreases entries.len() - i,
    {
        proof {
            assert(entries@.subrange(0, i + 1).drop_last() =~= entries@.subrange(0, i as int));
            assert(entries@.subrange(0, i + 1).last() == entries@[i as int]);
        }
        let entry = &entries[i];
        let name = entry.name.as_slice();
        if entry.is_file && is_output_product_name(name) {
            let ghost before = views(found@);
            let copy = copy_range(name, 0, name.len());
            proof {
                assert(copy@ =~= name@);
            }
            found.push(copy);
            proof {
                assert(views(found@) =~= before.push(name@));
            }
        }
        i += 1;
    }
    proof {
        assert(entries@.subrange(0, entries.len() as int) =~= entries@);
    }
    sort_names(found)
}

/// A snapshot as plain values: path, time of the last change, size.
pub open spec fn snapshot_view(s: ProductSnapshot) -> (Seq<u8>, Option<u128>, u64) {
    (s.path@, s.modified, s.len)
}

/// The snapshots of the products in a listing, in the order of the listing.
pub open spec fn snapshots_of(entries: Seq<FileInfo>) -> Seq<(Seq<u8>, Option<u128>, u64)>
    decreases entries.len(),
{
    if entries.len() == 0 {
        Seq::<(Seq<u8>, Option<u128>, u64)>::empty()
    } else {
        let before = snapshots_of(entries.drop_last());
        let e = entries.last();
        if is_product_entry(e) {
            before.push((e.name@, e.modified, e.len))
        } else {
            before
        }
    }
}

/// A list of snapshots as plain values.
pub open spec fn snapshot_views(list: Seq<ProductSnapshot>) -> Seq<(Seq<u8>, Option<u128>, u64)> {
    Seq::new(list.len(), |i: int| snapshot_view(list[i]))
}

/// Records the products in a listing of a directory, to find later what a
/// conversion changed there.
pub fn snapshot_output_products(entries: &[FileInfo]) -> (r: Vec<ProductSnapshot>)
    ensures
        snapshot_views(r@) == snapshots_of(entries@),
{
    let mut out: Vec<ProductSnapshot> = Vec::new();
    let mut i: usize = 0;
    proof {
        assert(snapshot_views(out@) =~= snapshots_of(entries@.subrange(0, 0)));
    }
    while i < entries.len()
        invariant
            i <= entries.len(),
            snapshot_views(out@) == snapshots_of(entries@.subrange(0, i as int)),
        decreases entries.len() - i,
    {
        proof {
            assert(entries@.subrange(0, i + 1).drop_last() =~= entries@.subrange(0, i as int));
            assert(entries@.subrange(0, i + 1).last() == entries@[i as int]);
        }
        let entry = &entries[i];
        let name = entry.name.as_slice();
        if entry.is_file && is_output_product_name(name) {
            let ghost before = snapshot_views(out@);
            let copy = copy_range(name, 0, name.len());
            proof {
                assert(copy@ =~= name@);
            }
            out.push(ProductSnapshot { path: copy, modified: entry.modified, len: entry.len });
            proof {
                assert(snapshot_views(out@) =~= before.push((name@, entry.modified, entry.len)));
            }
        }
        i += 1;
    }
    proof {
        assert(entries@.subrange(0, entries.len() as int) =~= entries@);
    }
    out
}

/// What was last recorded of a path, if it was recorded.
pub open spec fn last_seen(before: Seq<(Seq<u8>, Option<u128>, u64)>, path: Seq<u8>) -> Option<
    (Option<u128>, u64),
>
    decreases before.len(),
{
    if before.len() == 0 {
        None
    } else if before.last().0 == path {
        Some((before.last().1, before.last().2))
    } else {
        last_seen(before.drop_last(), path)
    }
}

/// A product is changed if it was not there before, or if its time or its
/// size differs from what was recorded.
pub open spec fn is_changed(
    before: Seq<(Seq<u8>, Option<u128>, u64)>,
    snap: (Seq<u8>, Option<u128>, u64),
) -> bool {
    match last_seen(before, snap.0) {
        None => true,
        Some(prev) => prev != (snap.1, snap.2),
    }
}

/// The paths of the changed products, in the order of the later record.
pub open spec fn changed_paths(
    before: Seq<(Seq<u8>, Option<u128>, u64)>,
    after: Seq<(Seq<u8>, Option<u128>, u64)>,
) -> Seq<Seq<u8>>
    decreases after.len(),
{
    if after.len() == 0 {
        Seq::<Seq<u8>>::empty()
    } else {
        let head = changed_paths(before, after.drop_last());
        if is_changed(before, after.last()) {
            head.push(after.last().0)
        } else {
            head
        }
    }
}

/// Looks up what was last recorded of a path.
fn find_last_seen(before: &[ProductSnapshot], path: &[u8]) -> (r: Option<(Option<u128>, u64)>)
    ensures
        r == last_seen(snapshot_views(before@), path@),
{
    let ghost all = snapshot_views(before@);
    let mut i: usize = before.len();
    proof {
        assert(all.subrange(0, i as int) =~= all);
    }
    while i > 0
        invariant
            i <= before.len(),
            all == snapshot_views(before@),
            last_seen(all, path@) == last_seen(all.subrange(0, i as int), path@),
        decreases i,
    {
        proof {
            assert(all.subrange(0, i as int).drop_last() =~= all.subrange(0, i - 1));
            assert(all.subrange(0, i as int).last() == snapshot_view(before@[i - 1]));
        }
        if bytes_eq(before[i - 1].path.as_slice(), path) {
            return Some((before[i - 1].modified, before[i - 1].len));
        }
        i -= 1;
    }
    None
}

/// Finds what a conversion changed in a directory: the products that were
/// not there before, and those whose time or size differs. The paths come
/// in the order of a dictionary.
pub fn collect_changed_output_products(before: &[ProductSnapshot], after: &[ProductSnapshot]) -> (r:
    Vec<Vec<u8>>)
    ensures
        sorted_names(views(r@)),
        views(r@).to_multiset() == changed_paths(
            snapshot_views(before@),
            snapshot_views(after@),
        ).to_multiset(),
{
    let ghost old_views = snapshot_views(before@);
    let ghost new_views = snapshot_views(after@);
    let mut changed: Vec<Vec<u8>> = Vec::new();
    let mut i: usize = 0;
    proof {
        assert(views(changed@) =~= changed_paths(old_views, new_views.subrange(0, 0)));
    }
    while i < after.len()
        invariant
            i <= after.len(),
            old_views == snapshot_views(before@),
            new_views == snapshot_views(after@),
            views(changed@) == changed_paths(old_views, new_views.subrange(0, i as int)),
        decreases after.len() - i,
    {
        proof {
            assert(new_views.subrange(0, i + 1).drop_last() =~= new_views.subrange(0, i as int));
            assert(new_views.subrange(0, i + 1).last() == snapshot_view(after@[i as int]));
        }
        let snap = &after[i];
        let is_new = match find_last_seen(before, snap.path.as_slice()) {
            None => true,
            Some(prev) => !same_record(prev, snap.modified, snap.len),
        };
        if is_new {
            let ghost head = views(changed@);
            let copy = copy_range(snap.path.as_slice(), 0, snap.path.len());
            proof {
                assert(copy@ =~= snap.path@);
            }
            changed.push(copy);
            proof {
                assert(views(changed@) =~= head.push(snap.path@));
            }
        }
        i += 1;
    }
    proof {
        assert(new_views.subrange(0, after.len() as int) =~= new_views);
    }
    sort_names(changed)
}

/// Tells whether a record holds the given time and size.
fn same_record(prev: (Option<u128>, u64), modified: Option<u128>, len: u64) -> (r: bool)
    ensures
        r == (prev == (modified, len)),
{
    let same_time = match (prev.0, modified) {
        (Some(a), Some(b)) => a == b,
        (None, None) => true,
        _ => false,
    };
    same_time && prev.1 == len
}

/// A file to be renamed or moved, and the name it gets.
#[derive(Clone, Debug)]
pub struct Rename {
    pub from: Vec<u8>,
    pub to: Vec<u8>,
}

/// A list of renames as pairs of names.
pub open spec fn rename_views(list: Seq<Rename>) -> Seq<(Seq<u8>, Seq<u8>)> {
    Seq::new(list.len(), |i: int| (list[i].from@, list[i].to@))
}

/// A listing without the name `gone`.
pub open spec fn without(names: Seq<Seq<u8>>, gone: Seq<u8>) -> Seq<Seq<u8>>
    decreases names.len(),
{
    if names.len() == 0 {
        Seq::<Seq<u8>>::empty()
    } else {
        let head = without(names.drop_last(), gone);
        if names.last() == gone {
            head
        } else {
            head.push(names.last())
        }
    }
}

/// Copies a listing without one name.
fn remove_name(names: &Vec<Vec<u8>>, gone: &[u8]) -> (r: Vec<Vec<u8>>)
    ensures
        views(r@) == without(views(names@), gone@),
{
    let ghost all = views(names@);
    let mut out: Vec<Vec<u8>> = Vec::new();
    let mut i: usize = 0;
    proof {
        assert(views(out@) =~= without(all.subrange(0, 0), gone@));
    }
    while i < names.len()
        invariant
            i <= names.len(),
            all == views(names@),
            views(out@) == without(all.subrange(0, i as int), gone@),
        decreases names.len() - i,
    {
        proof {
            assert(all.subrange(0, i + 1).drop_last() =~= all.subrange(0, i as int));
            assert(all.subrange(0, i + 1).last() == names@[i as int]@);
        }
        if !bytes_eq(names[i].as_slice(), gone) {
            let ghost head = views(out@);
            let copy = copy_range(names[i].as_slice(), 0, names[i].len());
            proof {
                assert(copy@ =~= names@[i as int]@);
            }
            out.push(copy);
            proof {
                assert(views(out@) =~= head.push(names@[i as int]@));
            }
        }
        i += 1;
    }
    proof {
        assert(all.subrange(0, names.len() as int) =~= all);
    }
    out
}

/// Renaming the products of an hour to the hour's epoch, one after the
/// other: the renames made, the names of the products afterwards, and what
/// the directory then holds. A product whose name carries another epoch of
/// eleven digits gets the hour's epoch in its place, under the first name
/// that is free; every other product keeps its name.
pub open spec fn normalized(outputs: Seq<Seq<u8>>, existing: Seq<Seq<u8>>, target: Seq<u8>) -> (
    Seq<(Seq<u8>, Seq<u8>)>,
    Seq<Seq<u8>>,
    Seq<Seq<u8>>,
)
    decreases outputs.len(),
{
    if outputs.len() == 0 {
        (Seq::<(Seq<u8>, Seq<u8>)>::empty(), Seq::<Seq<u8>>::empty(), existing)
    } else {
        let before = normalized(outputs.drop_last(), existing, target);
        let name = outputs.last();
        match rewritten_name(name, target) {
            None => (before.0, before.1.push(name), before.2),
            Some(wanted) => {
                let to = unique_destination(before.2, wanted);
                (before.0.push((name, to)), before.1.push(to), without(before.2, name).push(to))
            },
        }
    }
}

/// Plans the renaming of an hour's products to the hour's epoch. `outputs`
/// are the products and `existing` all the files of their directory. The
/// result holds the renames to make, in order, and the names of the
/// products afterwards, in the order of a dictionary.
pub fn normalize_long_output_names_for_target_hour(
    outputs: &[Vec<u8>],
    existing: &[Vec<u8>],
    target_epoch: &[u8],
) -> (r: (Vec<Rename>, Vec<Vec<u8>>))
    ensures
        rename_views(r.0@) == normalized(views(outputs@), views(existing@), target_epoch@).0,
        sorted_names(views(r.1@)),
        views(r.1@).to_multiset() == normalized(
            views(outputs@),
            views(existing@),
            target_epoch@,
        ).1.to_multiset(),
{
    let ghost all = views(outputs@);
    let ghost first = views(existing@);
    let mut renames: Vec<Rename> = Vec::new();
    let mut names: Vec<Vec<u8>> = Vec::new();
    let mut held: Vec<Vec<u8>> = slice_to_vec_of_names(existing);
    let mut i: usize = 0;
    let ghost target = target_epoch@;
    let ghost started = normalized(all.subrange(0, 0), first, target);
    proof {
        assert(rename_views(renames@) =~= started.0);
        assert(views(names@) =~= started.1);
    }
    while i < outputs.len()
        invariant
            i <= outputs.len(),
            all == views(outputs@),
            target == target_epoch@,
            rename_views(renames@) == normalized(all.subrange(0, i as int), first, target).0,
            views(names@) == normalized(all.subrange(0, i as int), first, target).1,
            views(held@) == normalized(all.subrange(0, i as int), first, target).2,
        decreases outputs.len() - i,
    {
        proof {
            assert(all.subrange(0, i + 1).drop_last() =~= all.subrange(0, i as int));
            assert(all.subrange(0, i + 1).last() == outputs@[i as int]@);
        }
        let name = outputs[i].as_slice();
        let ghost before_names = views(names@);
        let ghost before_renames = rename_views(renames@);
        match rewrite_long_name_epoch(name, target_epoch) {
            None => {
                let copy = copy_range(name, 0, name.len());
                proof {
                    assert(copy@ =~= name@);
                }
                names.push(copy);
                proof {
                    assert(views(names@) =~= before_names.push(name@));
                }
            },
            Some(wanted) => {
                let to = unique_destination_name(held.as_slice(), wanted.as_slice());
                let ghost to_view = to@;
                let mut next_held = remove_name(&held, name);
                let ghost shrunk = views(next_held@);
                let to_copy = copy_range(to.as_slice(), 0, to.len());
                let to_kept = copy_range(to.as_slice(), 0, to.len());
                let from = copy_range(name, 0, name.len());
                proof {
                    assert(to_copy@ =~= to_view);
                    assert(to_kept@ =~= to_view);
                    assert(from@ =~= name@);
                }
                next_held.push(to_kept);
                proof {
                    assert(views(next_held@) =~= shrunk.push(to_view));
                }
                held = next_held;
                renames.push(Rename { from, to });
                names.push(to_copy);
                proof {
                    assert(rename_views(renames@) =~= before_renames.push((name@, to_view)));
                    assert(views(names@) =~= before_names.push(to_view));
                }
            },
        }
        i += 1;
    }
    proof {
        assert(all.subrange(0, outputs.len() as int) =~= all);
    }
    (renames, sort_names(names))
}

/// Copies a list of names.
fn slice_to_vec_of_names(names: &[Vec<u8>]) -> (r: Vec<Vec<u8>>)
    ensures
        views(r@) == views(names@),
{
    let mut out: Vec<Vec<u8>> = Vec::new();
    let mut i: usize = 0;
    while i < names.len()
        invariant
            i <= names.len(),
            out@.len() == i,
            forall|j: int| 0 <= j < i ==> out@[j]@ == names@[j]@,
        decreases names.len() - i,
    {
        let copy = copy_range(names[i].as_slice(), 0, names[i].len());
        proof {
            assert(copy@ =~= names@[i as int]@);
        }
        out.push(copy);
        i += 1;
    }
    proof {
        assert(views(out@) =~= views(names@));
    }
    out
}

/// What the archive directory holds after the products `names` were moved
/// into it one after the other.
pub open spec fn archive_after(names: Seq<Seq<u8>>, existing: Seq<Seq<u8>>) -> Seq<Seq<u8>>
    decreases names.len(),
{
    if names.len() == 0 {
        existing
    } else {
        let before = archive_after(names.drop_last(), existing);
        before.push(unique_destination(before, names.last()))
    }
}

/// The names under which the products `names` arrive in an archive
/// directory that holds `existing`, moved one after the other: each takes
/// the first name that is free at its turn.
pub open spec fn archive_names(names: Seq<Seq<u8>>, existing: Seq<Seq<u8>>) -> Seq<Seq<u8>>
    decreases names.len(),
{
    if names.len() == 0 {
        Seq::<Seq<u8>>::empty()
    } else {
        archive_names(names.drop_last(), existing).push(
            unique_destination(archive_after(names.drop_last(), existing), names.last()),
        )
    }
}

/// Plans the move of an hour's products into their archive directory, which
/// holds the files `existing`. Each product gets its own name, or its name
/// with a suffix where the name is taken.
pub fn plan_archive_moves(outputs: &[Vec<u8>], existing: &[Vec<u8>]) -> (r: Vec<Rename>)
    ensures
        r@.len() == outputs.len(),
        forall|i: int|
            0 <= i < r@.len() ==> (#[trigger] r@[i]).from@ == outputs@[i]@ && r@[i].to@
                == archive_names(views(outputs@), views(existing@))[i],
{
    let ghost all = views(outputs@);
    let ghost first = views(existing@);
    let mut moves: Vec<Rename> = Vec::new();
    let mut held: Vec<Vec<u8>> = slice_to_vec_of_names(existing);
    let mut i: usize = 0;
    while i < outputs.len()
        invariant
            i <= outputs.len(),
            all == views(outputs@),
            moves@.len() == i,
            views(held@) == archive_after(all.subrange(0, i as int), first),
            archive_names(all.subrange(0, i as int), first).len() == i,
            forall|j: int|
                0 <= j < i ==> (#[trigger] moves@[j]).from@ == outputs@[j]@ && moves@[j].to@
                    == archive_names(all.subrange(0, i as int), first)[j],
        decreases outputs.len() - i,
    {
        proof {
            assert(all.subrange(0, i + 1).drop_last() =~= all.subrange(0, i as int));
            assert(all.subrange(0, i + 1).last() == outputs@[i as int]@);
        }
        let name = outputs[i].as_slice();
        let to = unique_destination_name(held.as_slice(), name);
        let ghost to_view = to@;
        let ghost before = views(held@);
        let to_kept = copy_range(to.as_slice(), 0, to.len());
        let from = copy_range(name, 0, name.len());
        proof {
            assert(to_kept@ =~= to_view);
            assert(from@ =~= name@);
        }
        held.push(to_kept);
        proof {
            assert(views(held@) =~= before.push(to_view));
        }
        moves.push(Rename { from, to });
        i += 1;
    }
    proof {
        assert(all.subrange(0, outputs.len() as int) =~= all);
    }
    moves
}

/// The archive law: no product is moved onto a file that the archive
/// holds, nor onto a product moved before it. Nothing is ever overwritten.
pub proof fn lemma_moves_never_overwrite(names: Seq<Seq<u8>>, existing: Seq<Seq<u8>>)
    ensures
        archive_names(names, existing).len() == names.len(),
        forall|i: int|
            0 <= i < names.len() ==> !existing.contains(
                #[trigger] archive_names(names, existing)[i],
            ),
        forall|i: int, j: int|
            0 <= i < j < names.len() ==> archive_names(names, existing)[i] != archive_names(
                names,
                existing,
            )[j],
        forall|x: Seq<u8>| existing.contains(x) ==> archive_after(names, existing).contains(x),
        forall|i: int|
            0 <= i < names.len() ==> archive_after(names, existing).contains(
                #[trigger] archive_names(names, existing)[i],
            ),
    decreases names.len(),
{
    if names.len() > 0 {
        let head = names.drop_last();
        lemma_moves_never_overwrite(head, existing);
        let before = archive_after(head, existing);
        let to = unique_destination(before, names.last());
        lemma_destination_is_free(before, names.last());
        let dests = archive_names(names, existing);
        let after = archive_after(names, existing);
        assert(after[after.len() - 1] == to);
        assert forall|x: Seq<u8>| before.contains(x) implies after.contains(x) by {
            let k = choose|k: int| 0 <= k < before.len() && before[k] == x;
            assert(after[k] == x);
        }
        assert forall|i: int| 0 <= i < names.len() implies !existing.contains(
            #[trigger] dests[i],
        ) by {
            if i < head.len() {
                assert(dests[i] == archive_names(head, existing)[i]);
            }
        }
        assert forall|i: int, j: int| 0 <= i < j < names.len() implies dests[i] != dests[j] by {
            assert(dests[i] == archive_names(head, existing)[i]);
            if j < head.len() {
                assert(dests[j] == archive_names(head, existing)[j]);
            } else {
                assert(before.contains(dests[i]));
            }
        }
        assert forall|i: int| 0 <= i < names.len() implies after.contains(#[trigger] dests[i]) by {
            if i < head.len() {
                assert(dests[i] == archive_names(head, existing)[i]);
                assert(before.contains(dests[i]));
            }
        }
    }
}

/// The name that `unique_destination` takes is free.
pub proof fn lemma_destination_is_free(existing: Seq<Seq<u8>>, name: Seq<u8>)
    ensures
        !existing.contains(unique_destination(existing, name)),
{
    // Among the first candidates, one more than the listing is long, one is free.
    lemma_some_attempt_free(existing, name, existing.len());
    let w = choose|w: nat| !existing.contains(destination_candidate(name, w));
    lemma_least_free(existing, name, w);
    let k = choose|k: nat| is_first_free(existing, name, k);
    lemma_first_free(existing, name, k);
}

/// Below a free attempt lies a first free one.
proof fn lemma_least_free(existing: Seq<Seq<u8>>, name: Seq<u8>, w: nat)
    requires
        !existing.contains(destination_candidate(name, w)),
    ensures
        exists|k: nat| is_first_free(existing, name, k),
    decreases w,
{
    if exists|j: nat| j < w && !existing.contains(destination_candidate(name, j)) {
        let j = choose|j: nat| j < w && !existing.contains(destination_candidate(name, j));
        lemma_least_free(existing, name, j);
    } else {
        assert(is_first_free(existing, name, w));
    }
}

/// A listing cannot hold all of more candidates than it has entries.
proof fn lemma_some_attempt_free(existing: Seq<Seq<u8>>, name: Seq<u8>, n: nat)
    requires
        n == existing.len(),
    ensures
        exists|w: nat| !existing.contains(destination_candidate(name, w)),
{
    if forall|w: nat| existing.contains(#[trigger] destination_candidate(name, w)) {
        let slots = Seq::new(
            n + 1,
            |i: int|
                choose|k: int|
                    0 <= k < existing.len() && existing[k] == destination_candidate(name, i as nat),
        );
        assert forall|i: int| 0 <= i < slots.len() implies 0 <= #[trigger] slots[i] < n
            && existing[slots[i]] == destination_candidate(name, i as nat) by {
            assert(existing.contains(destination_candidate(name, i as nat)));
        }
        assert forall|i: int, j: int| 0 <= i < slots.len() && 0 <= j < slots.len() && i
            != j implies slots[i] != slots[j] by {
            assert(existing[slots[i]] == destination_candidate(name, i as nat));
            assert(existing[slots[j]] == destination_candidate(name, j as nat));
            lemma_candidates_differ(name, i as nat, j as nat);
        }
        lemma_slots_bounded(slots, n as int);
        assert(false);
    }
}

/// A file that the converter is taken to have written: a regular file that
/// holds something.
pub open spec fn written(entry: Option<FileInfo>) -> bool {
    match entry {
        Some(info) => info.is_file && info.len > 0,
        None => false,
    }
}

/// Tells whether a file is there and holds something. `entry` is what the
/// file system tells of the path, nothing where the path is not there.
pub fn file_exists_and_nonempty(entry: &Option<FileInfo>) -> (r: bool)
    ensures
        r == written(*entry),
{
    match entry {
        Some(info) => info.is_file && info.len > 0,
        None => false,
    }
}

/// The offset of the last dot of a name, if the name has a dot.
pub open spec fn last_dot(name: Seq<u8>) -> Option<int>
    decreases name.len(),
{
    if name.len() == 0 {
        None
    } else if name.last() == 0x2e {
        Some(name.len() - 1)
    } else {
        last_dot(name.drop_last())
    }
}

/// The stem of a file name: what stands before its last dot. A name
/// without a dot, or whose only dot is its first byte, is its own stem.
pub open spec fn stem_of(name: Seq<u8>) -> Seq<u8> {
    match last_dot(name) {
        Some(at) => if at == 0 {
            name
        } else {
            name.subrange(0, at)
        },
        None => name,
    }
}

/// A text with every `/` replaced by `_`.
pub open spec fn without_slashes(s: Seq<u8>) -> Seq<u8> {
    Seq::new(
        s.len(),
        |i: int|
            if s[i] == 0x2f {
                0x5fu8
            } else {
                s[i]
            },
    )
}

/// Makes the name of a scratch file from a file name: its stem, with every
/// `/` replaced by `_`.
pub fn sanitize_stem_for_temp(file_name: &[u8]) -> (r: Vec<u8>)
    ensures
        r@ == without_slashes(stem_of(file_name@)),
{
    let mut end: usize = file_name.len();
    let mut at: usize = file_name.len();
    proof {
        assert(file_name@.subrange(0, at as int) =~= file_name@);
    }
    while at > 0 && file_name[at - 1] != 0x2e
        invariant
            at <= file_name.len(),
            last_dot(file_name@) == last_dot(file_name@.subrange(0, at as int)),
        decreases at,
    {
        proof {
            assert(file_name@.subrange(0, at as int).drop_last() =~= file_name@.subrange(
                0,
                at - 1,
            ));
        }
        at -= 1;
    }
    if at > 1 {
        end = at - 1;
    }
    proof {
        if at > 0 {
            assert(file_name@.subrange(0, at as int).last() == 0x2e);
        }
        assert(file_name@.subrange(0, end as int) =~= stem_of(file_name@));
    }
    let mut out: Vec<u8> = Vec::new();
    let mut i: usize = 0;
    while i < end
        invariant
            i <= end,
            end <= file_name.len(),
            out@ == without_slashes(file_name@.subrange(0, i as int)),
        decreases end - i,
    {
        let b: u8 = file_name[i];
        out.push(if b == 0x2f { 0x5f } else { b });
        proof {
            assert(out@ =~= without_slashes(file_name@.subrange(0, i + 1)));
        }
        i += 1;
    }
    out
}

} // verus!
