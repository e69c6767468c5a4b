//! Notepads: their list, the names given to new ones, and the list kept in
//! step with the text files on disk.
use vstd::prelude::*;
use vstd::string::StringExecFns;
use crate::rate_limit::AppStateInner;
use crate::text::{
    ascii_lower, chars_of, decimal, decimal_value, hex_lower, hex_lower_string, lemma_decimal_reads_back,
    lemma_hex_lower_len, push_decimal,
};

verus! {

/// A notepad: its identifier (the stem of its text file) and its name.
#[derive(Debug, Clone, PartialEq, Eq)]
pub struct Notepad {
    pub id: String,
    pub name: String,
}

/// The stored list of notepads.
#[derive(Debug, Clone, PartialEq, Eq)]
pub struct NotepadsJson {
    pub notepads: Vec<Notepad>,
}

/// The name `default`, which no new notepad's file may take.
pub open spec fn default_name() -> Seq<char> {
    seq!['d', 'e', 'f', 'a', 'u', 'l', 't']
}

/// Whether `s`, lower-cased, reads `default`. Only ASCII upper-case letters
/// lower-case to the letters of `default`, so this compares letter by
/// letter, ignoring ASCII case.
pub open spec fn is_default_name(s: Seq<char>) -> bool {
    s.len() == 7 && forall|i: int| 0 <= i < 7 ==> ascii_lower(#[trigger] s[i]) == default_name()[i]
}

/// Whether `s`, lower-cased, reads `default`.
pub fn is_default_file_name(s: &str) -> (r: bool)
    ensures
        r == is_default_name(s@),
{
    let v = chars_of(s);
    if v.len() != 7 {
        return false;
    }
    let lower_d = v[0] == 'd' || v[0] == 'D';
    let lower_e = v[1] == 'e' || v[1] == 'E';
    let lower_f = v[2] == 'f' || v[2] == 'F';
    let lower_a = v[3] == 'a' || v[3] == 'A';
    let lower_u = v[4] == 'u' || v[4] == 'U';
    let lower_l = v[5] == 'l' || v[5] == 'L';
    let lower_t = v[6] == 't' || v[6] == 'T';
    let r = lower_d && lower_e && lower_f && lower_a && lower_u && lower_l && lower_t;
    if !r {
        if !lower_d {
            assert(ascii_lower(s@[0]) != default_name()[0]);
        } else if !lower_e {
            assert(ascii_lower(s@[1]) != default_name()[1]);
        } else if !lower_f {
            assert(ascii_lower(s@[2]) != default_name()[2]);
        } else if !lower_a {
            assert(ascii_lower(s@[3]) != default_name()[3]);
        } else if !lower_u {
            assert(ascii_lower(s@[4]) != default_name()[4]);
        } else if !lower_l {
            assert(ascii_lower(s@[5]) != default_name()[5]);
        } else {
            assert(ascii_lower(s@[6]) != default_name()[6]);
        }
    }
    r
}

/// Whether a sanitizer outcome reserves a name: the name sanitizes to a
/// file name that reads `default` in lower case.
pub open spec fn reserves(sanitized: Option<String>) -> bool {
    match sanitized {
        Some(s) => is_default_name(s@),
        None => false,
    }
}

/// The `k`-th name tried for `desired`: `desired` itself, then
/// `desired-1`, `desired-2`, and so on.
pub open spec fn candidate(desired: Seq<char>, k: nat) -> Seq<char> {
    if k == 0 {
        desired
    } else {
        desired + seq!['-'] + decimal(k)
    }
}

/// Whether some notepad of `existing` is named `name`.
pub open spec fn name_taken(existing: Seq<Notepad>, name: Seq<char>) -> bool {
    exists|i: int| 0 <= i < existing.len() && (#[trigger] existing[i]).name@ == name
}

/// Whether a call of `sanitize` on a string reading `name` may report it
/// reserved.
pub open spec fn may_be_reserved<F: Fn(&str) -> Option<String>>(sanitize: F, name: Seq<char>) -> bool {
    exists|c: &str, out: Option<String>|
        c@ == name && #[trigger] call_ensures(sanitize, (c,), out) && reserves(out)
}

/// Whether the name `name` is certainly free: no notepad of `existing` has
/// it and `sanitize` never reports it reserved.
pub open spec fn surely_free<F: Fn(&str) -> Option<String>>(
    existing: Seq<Notepad>,
    sanitize: F,
    name: Seq<char>,
) -> bool {
    !name_taken(existing, name) && !may_be_reserved(sanitize, name)
}

/// Whether some name tried for `desired` (with a counter that fits in a
/// `u64`) is certainly free, so that the search for a free name ends.
pub open spec fn search_ends<F: Fn(&str) -> Option<String>>(
    existing: Seq<Notepad>,
    sanitize: F,
    desired: Seq<char>,
) -> bool {
    exists|k: nat| k < u64::MAX && #[trigger] surely_free(existing, sanitize, candidate(desired, k))
}

/// `name` is the name the search for `desired` settles on: it is the
/// `k`-th name tried, no notepad has it and the sanitizer did not report it
/// reserved, and each earlier name tried was taken or reported reserved.
pub open spec fn unique_name_for<F: Fn(&str) -> Option<String>>(
    existing: Seq<Notepad>,
    sanitize: F,
    desired: Seq<char>,
    name: Seq<char>,
) -> bool {
    exists|k: nat|
        #![trigger candidate(desired, k)]
        {
            &&& name == candidate(desired, k)
            &&& !name_taken(existing, name)
            &&& exists|c: &str, out: Option<String>|
                c@ == name && #[trigger] call_ensures(sanitize, (c,), out) && !reserves(out)
            &&& forall|j: nat|
                j < k ==> name_taken(existing, #[trigger] candidate(desired, j)) || may_be_reserved(
                    sanitize,
                    candidate(desired, j),
                )
        }
}

/// Whether some notepad of `existing` is named `name`.
fn is_name_taken(existing: &[Notepad], name: &String) -> (r: bool)
    ensures
        r == name_taken(existing@, name@),
{
    let mut i: usize = 0;
    while i < existing.len()
        invariant
            i <= existing@.len(),
            forall|j: int| 0 <= j < i ==> (#[trigger] existing@[j]).name@ != name@,
        decreases existing.len() - i,
    {
        if existing[i].name == *name {
            assert(existing@[i as int].name@ == name@);
            return true;
        }
        i = i + 1;
    }
    false
}

/// The `k`-th name tried for `desired`, for `k` from 1 on.
fn numbered_candidate(desired: &str, k: u64) -> (r: String)
    requires
        k >= 1,
    ensures
        r@ == candidate(desired@, k as nat),
{
    let mut r = String::from_str(desired);
    r.append("-");
    proof {
        reveal_strlit("-");
    }
    push_decimal(&mut r, k);
    assert(r@ =~= candidate(desired@, k as nat));
    r
}

impl AppStateInner {
    /// A name for a notepad that would like to be called `desired_name`:
    /// the first of `desired_name`, `desired_name-1`, `desired_name-2`, ...
    /// that no notepad of `existing` has and whose file name, as given by
    /// `sanitize` (`None` when the name cannot be a file name), does not read
    /// `default` in any case.
    pub fn generate_unique_name<F: Fn(&str) -> Option<String>>(
        &self,
        desired_name: &str,
        existing: &[Notepad],
        sanitize: &F,
    ) -> (r: String)
        requires
            forall|c: &str| call_requires(*sanitize, (c,)),
            search_ends(existing@, *sanitize, desired_name@),
        ensures
            unique_name_for(existing@, *sanitize, desired_name@, r@),
    {
        let ghost bound: nat = choose|k: nat|
            k < u64::MAX && #[trigger] surely_free(
                existing@,
                *sanitize,
                candidate(desired_name@, k),
            );
        let mut unique_name = String::from_str(desired_name);
        let mut counter: u64 = 1;
        loop
            invariant
                forall|c: &str| call_requires(*sanitize, (c,)),
                bound < u64::MAX,
                surely_free(existing@, *sanitize, candidate(desired_name@, bound)),
                1 <= counter,
                counter - 1 <= bound,
                unique_name@ == candidate(desired_name@, (counter - 1) as nat),
                forall|j: nat|
                    j < counter - 1 ==> name_taken(existing@, #[trigger] candidate(desired_name@, j))
                        || may_be_reserved(*sanitize, candidate(desired_name@, j)),
            decreases bound - (counter - 1),
        {
            let ghost k: nat = (counter - 1) as nat;
            let taken = is_name_taken(existing, &unique_name);
            if !taken {
                let sanitized = sanitize(unique_name.as_str());
                let reserved = match &sanitized {
                    Some(s) => is_default_file_name(s.as_str()),
                    None => false,
                };
                if !reserved {
                    assert(unique_name@ == candidate(desired_name@, k));
                    return unique_name;
                }
                assert(may_be_reserved(*sanitize, candidate(desired_name@, k)));
            }
            assert(k != bound);
            unique_name = numbered_candidate(desired_name, counter);
            counter = counter + 1;
        }
    }
}


/// The list a new data directory starts with: the single notepad
/// `default`, named `default`.
pub fn default_notepads() -> (r: NotepadsJson)
    ensures
        r.notepads@.len() == 1,
        r.notepads@[0].id@ == default_name(),
        r.notepads@[0].name@ == default_name(),
{
    proof {
        reveal_strlit("default");
    }
    let mut notepads: Vec<Notepad> = Vec::new();
    notepads.push(Notepad { id: String::from_str("default"), name: String::from_str("default") });
    NotepadsJson { notepads }
}

/// Whether some notepad of `notepads` has the identifier `id`.
pub open spec fn id_taken(notepads: Seq<Notepad>, id: Seq<char>) -> bool {
    exists|i: int| 0 <= i < notepads.len() && (#[trigger] notepads[i]).id@ == id
}

/// Whether a call of `sanitize` on the name of some notepad of `notepads`
/// may give the file name `stem`.
pub open spec fn may_sanitize_to<F: Fn(&str) -> Option<String>>(
    notepads: Seq<Notepad>,
    sanitize: F,
    stem: Seq<char>,
) -> bool {
    exists|i: int, c: &str, out: Option<String>|
        0 <= i < notepads.len() && c@ == (#[trigger] notepads[i]).name@ && #[trigger] call_ensures(
            sanitize,
            (c,),
            out,
        ) && (out matches Some(s) && s@ == stem)
}

/// The notepad, if any, that a text file with the stem `stem` adds to
/// `notepads`: none when a notepad has that identifier or a file name equal
/// to it; otherwise one with the stem as identifier and a unique name.
pub open spec fn file_outcome<F: Fn(&str) -> Option<String>>(
    notepads: Seq<Notepad>,
    sanitize: F,
    stem: Seq<char>,
    outcome: Option<Notepad>,
) -> bool {
    match outcome {
        None => id_taken(notepads, stem) || may_sanitize_to(notepads, sanitize, stem),
        Some(n) => {
            &&& !id_taken(notepads, stem)
            &&& forall|i: int|
                0 <= i < notepads.len() ==> may_sanitize_otherwise(
                    sanitize,
                    (#[trigger] notepads[i]).name@,
                    stem,
                )
            &&& n.id@ == stem
            &&& unique_name_for(notepads, sanitize, stem, n.name@)
        },
    }
}

/// The notepads present in `outcomes`, in order.
pub open spec fn added(outcomes: Seq<Option<Notepad>>) -> Seq<Notepad>
    decreases outcomes.len(),
{
    if outcomes.len() == 0 {
        Seq::empty()
    } else {
        match outcomes.last() {
            Some(n) => added(outcomes.drop_last()).push(n),
            None => added(outcomes.drop_last()),
        }
    }
}

/// Whether some notepad of `notepads` has the identifier `id`.
fn is_id_taken(notepads: &[Notepad], id: &String) -> (r: bool)
    ensures
        r == id_taken(notepads@, id@),
{
    let mut i: usize = 0;
    while i < notepads.len()
        invariant
            i <= notepads@.len(),
            forall|j: int| 0 <= j < i ==> (#[trigger] notepads@[j]).id@ != id@,
        decreases notepads.len() - i,
    {
        if notepads[i].id == *id {
            assert(notepads@[i as int].id@ == id@);
            return true;
        }
        i = i + 1;
    }
    false
}

/// Whether a call of `sanitize` on a string reading `name` may give
/// something other than the file name `stem`.
pub open spec fn may_sanitize_otherwise<F: Fn(&str) -> Option<String>>(
    sanitize: F,
    name: Seq<char>,
    stem: Seq<char>,
) -> bool {
    exists|c: &str, out: Option<String>|
        c@ == name && #[trigger] call_ensures(sanitize, (c,), out) && !(out matches Some(s) && s@
            == stem)
}

/// Whether the sanitized name of some notepad of `notepads` is `stem`.
fn sanitizes_to_any<F: Fn(&str) -> Option<String>>(
    notepads: &[Notepad],
    stem: &String,
    sanitize: &F,
) -> (r: bool)
    requires
        forall|c: &str| call_requires(*sanitize, (c,)),
    ensures
        r ==> may_sanitize_to(notepads@, *sanitize, stem@),
        !r ==> forall|i: int|
            0 <= i < notepads@.len() ==> may_sanitize_otherwise(
                *sanitize,
                (#[trigger] notepads@[i]).name@,
                stem@,
            ),
{
    let mut i: usize = 0;
    while i < notepads.len()
        invariant
            forall|c: &str| call_requires(*sanitize, (c,)),
            i <= notepads@.len(),
            forall|j: int|
                0 <= j < i ==> may_sanitize_otherwise(
                    *sanitize,
                    (#[trigger] notepads@[j]).name@,
                    stem@,
                ),
        decreases notepads.len() - i,
    {
        let c = notepads[i].name.as_str();
        let out = sanitize(c);
        let hit = match &out {
            Some(s) => *s == *stem,
            None => false,
        };
        if hit {
            assert(notepads@[i as int].name@ == c@);
            return true;
        }
        assert(may_sanitize_otherwise(*sanitize, notepads@[i as int].name@, stem@));
        i = i + 1;
    }
    false
}

impl AppStateInner {
    /// The notepad, if any, that the text file with stem `stem` adds to
    /// the list `notepads`.
    pub fn notepad_for_file<F: Fn(&str) -> Option<String>>(
        &self,
        notepads: &[Notepad],
        stem: &String,
        sanitize: &F,
    ) -> (r: Option<Notepad>)
        requires
            forall|c: &str| call_requires(*sanitize, (c,)),
            search_ends(notepads@, *sanitize, stem@),
        ensures
            file_outcome(notepads@, *sanitize, stem@, r),
    {
        let matches_id = is_id_taken(notepads, stem);
        let matches_sanitized_name = sanitizes_to_any(notepads, stem, sanitize);
        if !matches_id && !matches_sanitized_name {
            let name = self.generate_unique_name(stem.as_str(), notepads, sanitize);
            Some(Notepad { id: stem.clone(), name })
        } else {
            None
        }
    }

    /// The list of notepads `notepads` followed by a notepad for each text
    /// file stem of `txt_files` (in order) that no notepad accounts for,
    /// either by its identifier or by its sanitized name; each new notepad
    /// has the stem as identifier and a name unique among `notepads`.
    /// Returns the list and the number of notepads added.
    pub fn notepads_with_files<F: Fn(&str) -> Option<String>>(
        &self,
        notepads: Vec<Notepad>,
        txt_files: &Vec<String>,
        sanitize: &F,
    ) -> (r: (Vec<Notepad>, usize))
        requires
            forall|c: &str| call_requires(*sanitize, (c,)),
            forall|i: int|
                0 <= i < txt_files@.len() ==> search_ends(
                    notepads@,
                    *sanitize,
                    (#[trigger] txt_files@[i])@,
                ),
        ensures
            exists|outcomes: Seq<Option<Notepad>>|
                {
                    &&& outcomes.len() == txt_files@.len()
                    &&& forall|i: int|
                        #![trigger outcomes[i]]
                        0 <= i < outcomes.len() ==> file_outcome(
                            notepads@,
                            *sanitize,
                            txt_files@[i]@,
                            outcomes[i],
                        )
                    &&& r.0@ == notepads@ + added(outcomes)
                    &&& r.1 == added(outcomes).len()
                },
            forall|i: int|
                0 <= i < txt_files@.len() ==> id_taken(r.0@, (#[trigger] txt_files@[i])@)
                    || may_sanitize_to(notepads@, *sanitize, txt_files@[i]@),
    {
        let mut new_notepads: Vec<Notepad> = Vec::new();
        let ghost mut outcomes: Seq<Option<Notepad>> = Seq::empty();
        let mut i: usize = 0;
        while i < txt_files.len()
            invariant
                forall|c: &str| call_requires(*sanitize, (c,)),
                forall|j: int|
                    0 <= j < txt_files@.len() ==> search_ends(
                        notepads@,
                        *sanitize,
                        (#[trigger] txt_files@[j])@,
                    ),
                i <= txt_files@.len(),
                outcomes.len() == i,
                forall|j: int|
                    #![trigger outcomes[j]]
                    0 <= j < i ==> file_outcome(notepads@, *sanitize, txt_files@[j]@, outcomes[j]),
                new_notepads@ == added(outcomes),
            decreases txt_files.len() - i,
        {
            let outcome = self.notepad_for_file(notepads.as_slice(), &txt_files[i], sanitize);
            let ghost prev = outcomes;
            proof {
                outcomes = outcomes.push(outcome);
                assert(outcomes.drop_last() =~= prev);
            }
            match outcome {
                Some(n) => {
                    new_notepads.push(n);
                },
                None => {},
            }
            i = i + 1;
        }
        let count = new_notepads.len();
        let ghost old_list = notepads@;
        let mut all = notepads;
        all.append(&mut new_notepads);
        proof {
            let stems = Seq::new(txt_files@.len(), |i: int| txt_files@[i]@);
            lemma_files_accounted_for(old_list, *sanitize, stems, outcomes);
            assert forall|i: int|
                0 <= i < txt_files@.len() implies id_taken(all@, (#[trigger] txt_files@[i])@)
                    || may_sanitize_to(old_list, *sanitize, txt_files@[i]@) by {
                assert(stems[i] == txt_files@[i]@);
            }
        }
        (all, count)
    }
}

/// A notepad present in `outcomes` is among the notepads added.
pub proof fn lemma_outcome_added(outcomes: Seq<Option<Notepad>>, i: int)
    requires
        0 <= i < outcomes.len(),
        outcomes[i] is Some,
    ensures
        added(outcomes).contains(outcomes[i]->0),
    decreases outcomes.len(),
{
    if i == outcomes.len() - 1 {
        assert(added(outcomes).last() == outcomes[i]->0);
    } else {
        lemma_outcome_added(outcomes.drop_last(), i);
        let prev = added(outcomes.drop_last());
        let j = choose|j: int| 0 <= j < prev.len() && prev[j] == outcomes[i]->0;
        match outcomes.last() {
            Some(n) => {
                assert(added(outcomes)[j] == prev[j]);
            },
            None => {},
        }
    }
}

/// The notepads added are exactly those present in the outcomes, in
/// order: each notepad of `added(outcomes)` comes from an outcome, each
/// present outcome is added, and there are no more of them than outcomes.
pub proof fn lemma_added_exactly(outcomes: Seq<Option<Notepad>>)
    ensures
        forall|n: Notepad| #[trigger] added(outcomes).contains(n) <==> outcomes.contains(Some(n)),
        added(outcomes).len() <= outcomes.len(),
    decreases outcomes.len(),
{
    if outcomes.len() > 0 {
        let prev = outcomes.drop_last();
        lemma_added_exactly(prev);
        assert forall|n: Notepad| #[trigger] added(outcomes).contains(n) <==> outcomes.contains(
            Some(n),
        ) by {
            if outcomes.contains(Some(n)) {
                let i = choose|i: int| 0 <= i < outcomes.len() && outcomes[i] == Some(n);
                lemma_outcome_added(outcomes, i);
            }
            if added(outcomes).contains(n) {
                let a = added(outcomes);
                let j = choose|j: int| 0 <= j < a.len() && a[j] == n;
                match outcomes.last() {
                    Some(m) => {
                        if j < a.len() - 1 {
                            assert(added(prev)[j] == n);
                            assert(added(prev).contains(n));
                            let i = choose|i: int| 0 <= i < prev.len() && prev[i] == Some(n);
                            assert(outcomes[i] == Some(n));
                        } else {
                            assert(outcomes[outcomes.len() - 1] == Some(n));
                        }
                    },
                    None => {
                        assert(added(prev)[j] == n);
                        assert(added(prev).contains(n));
                        let i = choose|i: int| 0 <= i < prev.len() && prev[i] == Some(n);
                        assert(outcomes[i] == Some(n));
                    },
                }
            }
        }
    }
}

/// After the list is brought in step with the text files, every file is
/// accounted for: some notepad of the new list has its stem as identifier,
/// or some notepad of the old list has a name that sanitizes to it.
pub proof fn lemma_files_accounted_for<F: Fn(&str) -> Option<String>>(
    notepads: Seq<Notepad>,
    sanitize: F,
    stems: Seq<Seq<char>>,
    outcomes: Seq<Option<Notepad>>,
)
    requires
        outcomes.len() == stems.len(),
        forall|i: int|
            #![trigger outcomes[i]]
            0 <= i < outcomes.len() ==> file_outcome(notepads, sanitize, stems[i], outcomes[i]),
    ensures
        forall|i: int|
            0 <= i < stems.len() ==> id_taken(notepads + added(outcomes), #[trigger] stems[i])
                || may_sanitize_to(notepads, sanitize, stems[i]),
{
    let all = notepads + added(outcomes);
    assert forall|i: int| 0 <= i < stems.len() implies id_taken(all, #[trigger] stems[i])
        || may_sanitize_to(notepads, sanitize, stems[i]) by {
        match outcomes[i] {
            Some(n) => {
                lemma_outcome_added(outcomes, i);
                let j = choose|j: int|
                    0 <= j < added(outcomes).len() && added(outcomes)[j] == n;
                assert(all[notepads.len() + j] == n);
            },
            None => {
                if id_taken(notepads, stems[i]) {
                    let j = choose|j: int|
                        0 <= j < notepads.len() && (#[trigger] notepads[j]).id@ == stems[i];
                    assert(all[j] == notepads[j]);
                }
            },
        }
    }
}

/// The name search keeps a free name: when no notepad has `desired` and
/// the sanitizer never reports it reserved, the name chosen is `desired`
/// itself; in any case it is one of the names tried and no notepad has it.
pub proof fn lemma_unique_name_kept_when_free<F: Fn(&str) -> Option<String>>(
    existing: Seq<Notepad>,
    sanitize: F,
    desired: Seq<char>,
    name: Seq<char>,
)
    requires
        unique_name_for(existing, sanitize, desired, name),
    ensures
        !name_taken(existing, name),
        exists|k: nat| name == #[trigger] candidate(desired, k),
        surely_free(existing, sanitize, desired) ==> name == desired,
{
    let k = choose|k: nat|
        #![trigger candidate(desired, k)]
        {
            &&& name == candidate(desired, k)
            &&& !name_taken(existing, name)
            &&& exists|c: &str, out: Option<String>|
                c@ == name && #[trigger] call_ensures(sanitize, (c,), out) && !reserves(out)
            &&& forall|j: nat|
                j < k ==> name_taken(existing, #[trigger] candidate(desired, j)) || may_be_reserved(
                    sanitize,
                    candidate(desired, j),
                )
        };
    if k > 0 {
        assert(candidate(desired, 0) == desired);
    }
}

/// The name a new notepad would like: `Notepad <n>`.
pub open spec fn numbered_notepad_name(n: nat) -> Seq<char> {
    seq!['N', 'o', 't', 'e', 'p', 'a', 'd', ' '] + decimal(n)
}

/// The name a new notepad would like is `Notepad `, a space, then the
/// decimal digits of the number it gets, in full: the digits after the
/// prefix read back as that number.
pub proof fn lemma_numbered_name_reads_back(n: nat)
    ensures
        numbered_notepad_name(n).len() > 8,
        numbered_notepad_name(n).subrange(0, 8) == seq!['N', 'o', 't', 'e', 'p', 'a', 'd', ' '],
        decimal_value(numbered_notepad_name(n).skip(8)) == n,
        forall|i: int|
            8 <= i < numbered_notepad_name(n).len() ==> '0' <= #[trigger] numbered_notepad_name(
                n,
            )[i] && numbered_notepad_name(n)[i] <= '9',
        numbered_notepad_name(n)[8] == '0' <==> n == 0,
{
    lemma_decimal_reads_back(n);
    let name = numbered_notepad_name(n);
    assert(name.skip(8) =~= decimal(n));
    assert(name.subrange(0, 8) =~= seq!['N', 'o', 't', 'e', 'p', 'a', 'd', ' ']);
    assert forall|i: int| 8 <= i < name.len() implies '0' <= #[trigger] name[i] && name[i] <= '9' by {
        assert(name[i] == decimal(n)[i - 8]);
    }
}

/// The names tried for `desired` are `desired` itself, then `desired`, a
/// dash and the decimal digits of the counter, reading back as the counter.
pub proof fn lemma_candidate_reads_back(desired: Seq<char>, k: nat)
    ensures
        k == 0 ==> candidate(desired, k) == desired,
        k > 0 ==> {
            let c = candidate(desired, k);
            &&& c.subrange(0, desired.len() as int) == desired
            &&& c[desired.len() as int] == '-'
            &&& decimal_value(c.skip(desired.len() as int + 1)) == k
            &&& forall|i: int|
                desired.len() < i < c.len() ==> '0' <= #[trigger] c[i] && c[i] <= '9'
            &&& c[desired.len() as int + 1] != '0'
        },
{
    if k > 0 {
        lemma_decimal_reads_back(k);
        let c = candidate(desired, k);
        assert(c.subrange(0, desired.len() as int) =~= desired);
        assert(c.skip(desired.len() as int + 1) =~= decimal(k));
        assert forall|i: int| desired.len() < i < c.len() implies '0' <= #[trigger] c[i] && c[i]
            <= '9' by {
            assert(c[i] == decimal(k)[i - desired.len() - 1]);
        }
    }
}

/// A file name reads `default` in lower case exactly when it is the seven
/// letters d, e, f, a, u, l, t, each in either ASCII case.
pub proof fn lemma_default_name_letters(s: Seq<char>)
    ensures
        is_default_name(s) <==> (s.len() == 7 && (s[0] == 'd' || s[0] == 'D') && (s[1] == 'e'
            || s[1] == 'E') && (s[2] == 'f' || s[2] == 'F') && (s[3] == 'a' || s[3] == 'A') && (s[4]
            == 'u' || s[4] == 'U') && (s[5] == 'l' || s[5] == 'L') && (s[6] == 't' || s[6] == 'T')),
{
    assert('D' as u32 + 32 == 'd' as u32 && 'E' as u32 + 32 == 'e' as u32 && 'F' as u32 + 32
        == 'f' as u32 && 'A' as u32 + 32 == 'a' as u32 && 'U' as u32 + 32 == 'u' as u32 && 'L' as u32
        + 32 == 'l' as u32 && 'T' as u32 + 32 == 't' as u32);
    if is_default_name(s) {
        assert(ascii_lower(s[0]) == default_name()[0]);
        assert(ascii_lower(s[1]) == default_name()[1]);
        assert(ascii_lower(s[2]) == default_name()[2]);
        assert(ascii_lower(s[3]) == default_name()[3]);
        assert(ascii_lower(s[4]) == default_name()[4]);
        assert(ascii_lower(s[5]) == default_name()[5]);
        assert(ascii_lower(s[6]) == default_name()[6]);
    }
}

/// The name chosen for a notepad is one of the names tried for
/// `desired`, and no notepad of `existing` is called by it.
pub proof fn lemma_unique_name_is_new<F: Fn(&str) -> Option<String>>(
    existing: Seq<Notepad>,
    sanitize: F,
    desired: Seq<char>,
    name: Seq<char>,
)
    requires
        unique_name_for(existing, sanitize, desired, name),
    ensures
        forall|i: int| 0 <= i < existing.len() ==> (#[trigger] existing[i]).name@ != name,
        exists|k: nat| name == #[trigger] candidate(desired, k),
{
    lemma_unique_name_kept_when_free(existing, sanitize, desired, name);
}

/// Fills 16 bytes with `rand::RngCore::fill_bytes` on the thread-local
/// generator `rand::rng()`. The bytes are random, so nothing is stated of
/// them.
#[verifier::external_body]
fn random_id_bytes() -> (r: [u8; 16]) {
    let mut buf = [0u8; 16];
    rand::RngCore::fill_bytes(&mut rand::rng(), &mut buf);
    buf
}

/// A fresh notepad identifier: 16 random bytes written as 32 lower-case
/// hexadecimal digits.
pub fn new_notepad_id() -> (r: String)
    ensures
        exists|bytes: Seq<u8>| bytes.len() == 16 && r@ == hex_lower(bytes),
        r@.len() == 32,
{
    let bytes = random_id_bytes();
    let r = hex_lower_string(bytes.as_slice());
    proof {
        lemma_hex_lower_len(bytes@);
    }
    r
}

impl AppStateInner {
    /// Adds to `data` a new notepad with identifier `id`, named after the
    /// number of notepads it will make (`Notepad <n>`, made unique), and
    /// returns it.
    pub fn add_new_notepad<F: Fn(&str) -> Option<String>>(
        &self,
        data: &mut NotepadsJson,
        id: String,
        sanitize: &F,
    ) -> (r: Notepad)
        requires
            old(data).notepads@.len() < usize::MAX,
            forall|c: &str| call_requires(*sanitize, (c,)),
            search_ends(
                old(data).notepads@,
                *sanitize,
                numbered_notepad_name(old(data).notepads@.len() + 1),
            ),
        ensures
            r.id == id,
            unique_name_for(
                old(data).notepads@,
                *sanitize,
                numbered_notepad_name(old(data).notepads@.len() + 1),
                r.name@,
            ),
            final(data).notepads@ == old(data).notepads@.push(r),
    {
        let mut desired = String::from_str("Notepad ");
        proof {
            reveal_strlit("Notepad ");
        }
        let n = data.notepads.len() + 1;
        push_decimal(&mut desired, n as u64);
        assert(desired@ =~= numbered_notepad_name(old(data).notepads@.len() + 1));
        let name = self.generate_unique_name(desired.as_str(), data.notepads.as_slice(), sanitize);
        let entry = Notepad { id: id.clone(), name: name.clone() };
        data.notepads.push(Notepad { id, name });
        entry
    }
}

/// The lifetime, in seconds, of the page-history cookie for a configured
/// lifetime of `days` days.
pub fn page_history_max_age_secs(days: u64) -> (r: u64)
    requires
        days * 86400 <= i64::MAX,
    ensures
        r == days * 86400,
{
    days * 24 * 3600
}

} // verus!
