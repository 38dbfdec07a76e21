//! What the interpreter tells the user about an error: the nearest command
//! names, a hint on how to install a missing program, and where it looked.

use vstd::prelude::*;
use vstd::string::*;

use crate::error::{ErrorView, ShellError};
use crate::numbers::{decimal, push_decimal};
use crate::text::{
    chars_of, comes_before, join_first, join_with, lemma_less_irreflexive, lemma_less_total,
    lemma_less_transitive, same_text, split_at_char, split_on, text_less, texts,
};

verus! {

/// The smallest of three numbers.
pub open spec fn min3(a: nat, b: nat, c: nat) -> nat {
    if a <= b && a <= c {
        a
    } else if b <= c {
        b
    } else {
        c
    }
}

/// The edit distance of `a` and `b`: the least number of characters to
/// insert, delete or replace to turn one into the other.
pub open spec fn distance(a: Seq<char>, b: Seq<char>) -> nat
    decreases a.len() + b.len(),
{
    if a.len() == 0 {
        b.len()
    } else if b.len() == 0 {
        a.len()
    } else {
        min3(
            distance(a.drop_last(), b) + 1,
            distance(a, b.drop_last()) + 1,
            distance(a.drop_last(), b.drop_last()) + if a.last() == b.last() {
                0nat
            } else {
                1nat
            },
        )
    }
}

/// The edit distance is at most the length of the longer text.
pub proof fn lemma_distance_bound(a: Seq<char>, b: Seq<char>)
    ensures
        distance(a, b) <= a.len() || distance(a, b) <= b.len(),
    decreases a.len() + b.len(),
{
    if a.len() > 0 && b.len() > 0 {
        lemma_distance_bound(a.drop_last(), b.drop_last());
    }
}

/// The edit distance of `a` and `b`, counted in characters.
pub fn edit_distance(a: &str, b: &str) -> (d: usize)
    ensures
        d == distance(a@, b@),
{
    let x = chars_of(a);
    let y = chars_of(b);
    let n = x.len();
    let m = y.len();
    let mut prev: Vec<u128> = Vec::new();
    prev.push(0);
    let mut j: usize = 0;
    assert(x@.take(0).len() == 0);
    while j < m
        invariant
            j <= m,
            m == y.len(),
            prev.len() == j + 1,
            forall|k: int| 0 <= k <= j ==> #[trigger] prev@[k] == distance(x@.take(0), y@.take(k)),
            x@.take(0).len() == 0,
        decreases m - j,
    {
        j += 1;
        prev.push(j as u128);
        assert(y@.take(j as int).len() == j);
    }
    let mut i: usize = 0;
    while i < n
        invariant
            i <= n,
            n == x.len(),
            m == y.len(),
            prev.len() == m + 1,
            forall|k: int| 0 <= k <= m ==> #[trigger] prev@[k] == distance(x@.take(i as int), y@.take(k)),
        decreases n - i,
    {
        let mut cur: Vec<u128> = Vec::new();
        cur.push((i as u128) + 1);
        assert(y@.take(0).len() == 0);
        assert(x@.take(i + 1).len() == i + 1);
        let mut j: usize = 0;
        while j < m
            invariant
                j <= m,
                i < n,
                n == x.len(),
                m == y.len(),
                prev.len() == m + 1,
                cur.len() == j + 1,
                forall|k: int|
                    0 <= k <= m ==> #[trigger] prev@[k] == distance(x@.take(i as int), y@.take(k)),
                forall|k: int|
                    0 <= k <= j ==> #[trigger] cur@[k] == distance(x@.take(i + 1), y@.take(k)),
            decreases m - j,
        {
            proof {
                let a = x@.take(i + 1);
                let b = y@.take(j + 1);
                assert(a.drop_last() =~= x@.take(i as int));
                assert(b.drop_last() =~= y@.take(j as int));
                assert(a.last() == x@[i as int]);
                assert(b.last() == y@[j as int]);
                lemma_distance_bound(x@.take(i as int), y@.take(j + 1));
                lemma_distance_bound(x@.take(i + 1), y@.take(j as int));
                lemma_distance_bound(x@.take(i as int), y@.take(j as int));
                assert(prev@[j + 1] == distance(x@.take(i as int), y@.take(j + 1)));
                assert(prev@[j as int] == distance(x@.take(i as int), y@.take(j as int)));
                assert(cur@[j as int] == distance(x@.take(i + 1), y@.take(j as int)));
            }
            let cost: u128 = if x[i] == y[j] {
                0
            } else {
                1
            };
            let up = prev[j + 1] + 1;
            let left = cur[j] + 1;
            let diagonal = prev[j] + cost;
            let best = if up <= left && up <= diagonal {
                up
            } else if left <= diagonal {
                left
            } else {
                diagonal
            };
            cur.push(best);
            j += 1;
        }
        prev = cur;
        i += 1;
    }
    proof {
        assert(x@.take(n as int) =~= x@);
        assert(y@.take(m as int) =~= y@);
        lemma_distance_bound(x@, y@);
        assert(prev@[m as int] == distance(x@, y@));
    }
    prev[m] as usize
}

/// The names of the commands that the builtin dispatcher and the job control
/// know.
pub open spec fn builtin_names() -> Seq<Seq<char>> {
    seq![
        "cd"@,
        "ll"@,
        "freqs"@,
        "help"@,
        "export"@,
        "unset"@,
        "jobs"@,
        "fg"@,
        "bg"@,
        "exit"@,
    ]
}

/// The names of the builtin commands.
pub fn builtins() -> (names: Vec<String>)
    ensures
        texts(names@) == builtin_names(),
{
    let mut names: Vec<String> = Vec::new();
    names.push("cd".to_owned());
    names.push("ll".to_owned());
    names.push("freqs".to_owned());
    names.push("help".to_owned());
    names.push("export".to_owned());
    names.push("unset".to_owned());
    names.push("jobs".to_owned());
    names.push("fg".to_owned());
    names.push("bg".to_owned());
    names.push("exit".to_owned());
    assert(texts(names@) =~= builtin_names());
    names
}

/// Whether `x` is a better suggestion for `input` than `y`: it is nearer to
/// `input`, or as near and earlier in the order of strings.
pub open spec fn ranks_before(input: Seq<char>, x: Seq<char>, y: Seq<char>) -> bool {
    distance(input, x) < distance(input, y) || (distance(input, x) == distance(input, y)
        && text_less(x, y))
}

/// Whether `name` is near enough to `input` to be suggested for it: at most
/// two edits away.
pub open spec fn near(input: Seq<char>, name: Seq<char>) -> bool {
    distance(input, name) <= 2
}

/// Whether `result` holds the best suggestions for `input` among
/// `candidates`, at most `max_n` of them: every entry is a candidate that is
/// near enough; the entries stand from best to worst, none twice; and every
/// near candidate that is left out is worse than the last entry of a full
/// result.
pub open spec fn is_ranking(
    input: Seq<char>,
    candidates: Seq<Seq<char>>,
    max_n: nat,
    result: Seq<Seq<char>>,
) -> bool {
    &&& result.len() <= max_n
    &&& forall|i: int|
        0 <= i < result.len() ==> near(input, #[trigger] result[i]) && candidates.contains(
            result[i],
        )
    &&& forall|i: int, j: int|
        0 <= i < j < result.len() ==> ranks_before(input, #[trigger] result[i], #[trigger] result[j])
    &&& forall|k: int|
        0 <= k < candidates.len() && near(input, #[trigger] candidates[k]) ==> result.contains(
            candidates[k],
        ) || (result.len() == max_n && (max_n == 0 || ranks_before(
            input,
            result.last(),
            candidates[k],
        )))
}

/// No name is a better suggestion than itself.
pub proof fn lemma_rank_irreflexive(input: Seq<char>, x: Seq<char>)
    ensures
        !ranks_before(input, x, x),
{
    lemma_less_irreflexive(x, 0);
}

/// Being a better suggestion carries over.
pub proof fn lemma_rank_transitive(input: Seq<char>, x: Seq<char>, y: Seq<char>, z: Seq<char>)
    requires
        ranks_before(input, x, y),
        ranks_before(input, y, z),
    ensures
        ranks_before(input, x, z),
{
    if distance(input, x) == distance(input, y) && distance(input, y) == distance(input, z) {
        lemma_less_transitive(x, y, z, 0);
    }
}

/// Of two different names one is the better suggestion.
pub proof fn lemma_rank_total(input: Seq<char>, x: Seq<char>, y: Seq<char>)
    requires
        x != y,
    ensures
        ranks_before(input, x, y) || ranks_before(input, y, x),
{
    lemma_less_total(x, y, 0);
}

/// Whether the candidate at `x` is a better suggestion than the one at `y`.
fn better(candidates: &Vec<String>, distances: &Vec<usize>, x: usize, y: usize) -> (b: bool)
    requires
        x < candidates.len(),
        y < candidates.len(),
        distances.len() == candidates.len(),
    ensures
        b == (distances@[x as int] < distances@[y as int] || (distances@[x as int]
            == distances@[y as int] && text_less(
            candidates@[x as int]@,
            candidates@[y as int]@,
        ))),
{
    distances[x] < distances[y] || (distances[x] == distances[y] && comes_before(
        candidates[x].as_str(),
        candidates[y].as_str(),
    ))
}

/// The best suggestions for `input` among `candidates`, at most `max_n` of
/// them, from best to worst: the names at most two edits away, the nearer
/// first, names that are as near in the order of strings, each name once.
pub fn top_suggestions(input: &str, candidates: &Vec<String>, max_n: usize) -> (result: Vec<String>)
    ensures
        is_ranking(input@, texts(candidates@), max_n as nat, texts(result@)),
{
    let ghost names = texts(candidates@);
    let mut distances: Vec<usize> = Vec::new();
    let mut c: usize = 0;
    while c < candidates.len()
        invariant
            c <= candidates.len(),
            distances.len() == c,
            names == texts(candidates@),
            forall|k: int| 0 <= k < c ==> #[trigger] distances@[k] == distance(input@, names[k]),
        decreases candidates.len() - c,
    {
        assert(names[c as int] == candidates@[c as int]@);
        distances.push(edit_distance(input, candidates[c].as_str()));
        c += 1;
    }
    let mut result: Vec<String> = Vec::new();
    let mut last: Option<usize> = None;
    let mut exhausted = false;
    while result.len() < max_n && !exhausted
        invariant
            names == texts(candidates@),
            distances.len() == candidates.len(),
            forall|k: int|
                0 <= k < candidates.len() ==> #[trigger] distances@[k] == distance(
                    input@,
                    names[k],
                ),
            result.len() <= max_n,
            match last {
                Some(l) => l < candidates.len() && result.len() > 0 && texts(result@).last()
                    == names[l as int],
                None => result.len() == 0,
            },
            forall|i: int|
                0 <= i < result.len() ==> near(input@, #[trigger] texts(result@)[i])
                    && names.contains(texts(result@)[i]),
            forall|i: int, j: int|
                0 <= i < j < result.len() ==> ranks_before(
                    input@,
                    #[trigger] texts(result@)[i],
                    #[trigger] texts(result@)[j],
                ),
            forall|k: int|
                0 <= k < names.len() && near(input@, #[trigger] names[k]) ==> texts(
                    result@,
                ).contains(names[k]) || (!exhausted && (last matches Some(l) ==> ranks_before(
                    input@,
                    names[l as int],
                    names[k],
                ))),
        decreases max_n - result.len(), if exhausted { 0int } else { 1int },
    {
        let mut best: Option<usize> = None;
        let mut j: usize = 0;
        while j < candidates.len()
            invariant
                j <= candidates.len(),
                names == texts(candidates@),
                distances.len() == candidates.len(),
                forall|k: int|
                    0 <= k < candidates.len() ==> #[trigger] distances@[k] == distance(
                        input@,
                        names[k],
                    ),
                last matches Some(l) ==> l < candidates.len(),
                match best {
                    Some(b) => {
                        &&& b < candidates.len()
                        &&& near(input@, names[b as int])
                        &&& last matches Some(l) ==> ranks_before(
                            input@,
                            names[l as int],
                            names[b as int],
                        )
                        &&& forall|k: int|
                            0 <= k < j && near(input@, #[trigger] names[k]) && (last matches Some(
                                l,
                            ) ==> ranks_before(input@, names[l as int], names[k]))
                                ==> !ranks_before(input@, names[k], names[b as int])
                    },
                    None => forall|k: int|
                        0 <= k < j && near(input@, #[trigger] names[k]) ==> (last matches Some(l)
                            && !ranks_before(input@, names[l as int], names[k])),
                },
            decreases candidates.len() - j,
        {
            assert(names[j as int] == candidates@[j as int]@);
            let after_last = match last {
                Some(l) => {
                    assert(names[l as int] == candidates@[l as int]@);
                    better(candidates, &distances, l, j)
                },
                None => true,
            };
            if distances[j] <= 2 && after_last {
                match best {
                    None => {
                        proof {
                            lemma_rank_irreflexive(input@, names[j as int]);
                        }
                        best = Some(j);
                    },
                    Some(b) => {
                        assert(names[b as int] == candidates@[b as int]@);
                        if better(candidates, &distances, j, b) {
                            proof {
                                lemma_rank_irreflexive(input@, names[j as int]);
                                assert forall|k: int|
                                    0 <= k < j && near(input@, #[trigger] names[k]) && (
                                    last matches Some(l) ==> ranks_before(
                                        input@,
                                        names[l as int],
                                        names[k],
                                    )) implies !ranks_before(input@, names[k], names[j as int]) by {
                                    if ranks_before(input@, names[k], names[j as int]) {
                                        lemma_rank_transitive(
                                            input@,
                                            names[k],
                                            names[j as int],
                                            names[b as int],
                                        );
                                    }
                                }
                            }
                            best = Some(j);
                        }
                    },
                }
            }
            j += 1;
        }
        match best {
            None => {
                exhausted = true;
            },
            Some(b) => {
                let ghost before = texts(result@);
                let pick = candidates[b].clone();
                proof {
                    assert(names[b as int] == candidates@[b as int]@);
                    assert(texts(result@.push(pick)) =~= before.push(pick@));
                    let after = before.push(pick@);
                    assert forall|i: int, j: int| 0 <= i < j < after.len() implies ranks_before(
                        input@,
                        #[trigger] after[i],
                        #[trigger] after[j],
                    ) by {
                        if j == before.len() {
                            let l = last->Some_0;
                            if i < before.len() - 1 {
                                assert(ranks_before(input@, before[i], before[before.len() - 1]));
                                lemma_rank_transitive(
                                    input@,
                                    before[i],
                                    names[l as int],
                                    names[b as int],
                                );
                            }
                        } else {
                            assert(ranks_before(input@, before[i], before[j]));
                        }
                    }
                    assert forall|k: int|
                        0 <= k < names.len() && near(input@, #[trigger] names[k]) implies after.contains(
                        names[k],
                    ) || ranks_before(input@, names[b as int], names[k]) by {
                        if before.contains(names[k]) {
                            let w = choose|w: int| 0 <= w < before.len() && before[w] == names[k];
                            assert(after[w] == names[k]);
                        } else if names[k] == names[b as int] {
                            assert(after[before.len() as int] == names[k]);
                        } else {
                            lemma_rank_total(input@, names[b as int], names[k]);
                        }
                    }
                    assert forall|i: int| 0 <= i < after.len() implies near(
                        input@,
                        #[trigger] after[i],
                    ) && names.contains(after[i]) by {
                        if i < before.len() {
                            assert(after[i] == before[i]);
                        }
                    }
                }
                result.push(pick);
                last = Some(b);
            },
        }
    }
    proof {
        let r = texts(result@);
        assert forall|k: int|
            0 <= k < names.len() && near(input@, #[trigger] names[k]) implies r.contains(names[k])
            || (r.len() == max_n && (max_n == 0 || ranks_before(input@, r.last(), names[k]))) by {
            if !r.contains(names[k]) {
                assert(!exhausted);
            }
        }
    }
    result
}

/// The hint for installing `cmd` with the package manager `manager`, for the
/// managers that the interpreter knows.
pub open spec fn hint_for(manager: Seq<char>, cmd: Seq<char>) -> Option<Seq<char>> {
    if manager == "pacman"@ {
        Some("try: sudo pacman -S "@ + cmd)
    } else if manager == "apt"@ {
        Some("try: sudo apt install "@ + cmd)
    } else if manager == "dnf"@ {
        Some("try: sudo dnf install "@ + cmd)
    } else if manager == "zypper"@ {
        Some("try: sudo zypper install "@ + cmd)
    } else if manager == "brew"@ {
        Some("try: brew install "@ + cmd)
    } else {
        None
    }
}

/// The hints for installing `cmd` with each of `managers`, in order.
pub open spec fn hints_for(managers: Seq<Seq<char>>, cmd: Seq<char>) -> Seq<Seq<char>>
    decreases managers.len(),
{
    if managers.len() == 0 {
        Seq::empty()
    } else {
        match hint_for(managers.last(), cmd) {
            Some(h) => hints_for(managers.drop_last(), cmd).push(h),
            None => hints_for(managers.drop_last(), cmd),
        }
    }
}

/// The line that tells how to install `cmd`, given the package managers on
/// this machine: one hint for each, with `  |  ` between them; nothing where
/// no manager is known.
pub open spec fn install_hint_spec(managers: Seq<Seq<char>>, cmd: Seq<char>) -> Option<Seq<char>> {
    if hints_for(managers, cmd).len() == 0 {
        None
    } else {
        Some(join_with(hints_for(managers, cmd), "  |  "@))
    }
}

/// The hint for installing `cmd` with one package manager.
fn one_hint(manager: &str, cmd: &str) -> (hint: Option<String>)
    ensures
        match hint {
            Some(h) => hint_for(manager@, cmd@) == Some(h@),
            None => hint_for(manager@, cmd@) is None,
        },
{
    let lead = if same_text(manager, "pacman") {
        "try: sudo pacman -S "
    } else if same_text(manager, "apt") {
        "try: sudo apt install "
    } else if same_text(manager, "dnf") {
        "try: sudo dnf install "
    } else if same_text(manager, "zypper") {
        "try: sudo zypper install "
    } else if same_text(manager, "brew") {
        "try: brew install "
    } else {
        return None;
    };
    let mut hint = lead.to_owned();
    hint.append(cmd);
    Some(hint)
}

/// The line that tells how to install `cmd`, given the package managers
/// found on this machine.
pub fn install_hint_for(cmd: &str, managers: &Vec<String>) -> (hint: Option<String>)
    ensures
        match hint {
            Some(h) => install_hint_spec(texts(managers@), cmd@) == Some(h@),
            None => install_hint_spec(texts(managers@), cmd@) is None,
        },
{
    let mut hints: Vec<String> = Vec::new();
    let mut i: usize = 0;
    let ghost all = texts(managers@);
    assert(all.take(0) =~= Seq::<Seq<char>>::empty());
    assert(texts(hints@) =~= Seq::<Seq<char>>::empty());
    while i < managers.len()
        invariant
            i <= managers.len(),
            all == texts(managers@),
            texts(hints@) == hints_for(all.take(i as int), cmd@),
        decreases managers.len() - i,
    {
        proof {
            assert(all.take(i + 1).drop_last() =~= all.take(i as int));
            assert(all.take(i + 1).last() == managers@[i as int]@);
        }
        match one_hint(managers[i].as_str(), cmd) {
            Some(h) => {
                proof {
                    assert(texts(hints@.push(h)) =~= texts(hints@).push(h@));
                }
                hints.push(h);
            },
            None => {},
        }
        i += 1;
    }
    assert(all.take(i as int) =~= all);
    if hints.len() == 0 {
        None
    } else {
        assert(texts(hints@).take(hints.len() as int) =~= texts(hints@));
        Some(join_first(&hints, hints.len(), "  |  "))
    }
}

/// The package managers that the interpreter knows of.
pub open spec fn known_managers() -> Seq<Seq<char>> {
    seq!["pacman"@, "apt"@, "dnf"@, "zypper"@, "brew"@]
}

/// Whether a program of this name can be found.
///
/// Trusted: the body calls `which::which`, which looks for an executable
/// file of that name in the directories of `PATH`. The answer depends on the
/// environment and on what is on disk, so nothing is claimed of it.
#[verifier::external_body]
fn is_installed(name: &str) -> (found: bool) {
    which::which(name).is_ok()
}

/// The known package managers that `found` reports as installed, in order.
pub open spec fn chosen(names: Seq<Seq<char>>, found: Seq<bool>) -> Seq<Seq<char>>
    decreases names.len(),
{
    if names.len() == 0 || found.len() != names.len() {
        Seq::empty()
    } else if found.last() {
        chosen(names.drop_last(), found.drop_last()).push(names.last())
    } else {
        chosen(names.drop_last(), found.drop_last())
    }
}

/// The names among `names` for which `found` holds `true`, in order.
pub fn select_found(names: &Vec<String>, found: &Vec<bool>) -> (selected: Vec<String>)
    requires
        names.len() == found.len(),
    ensures
        texts(selected@) == chosen(texts(names@), found@),
{
    let mut selected: Vec<String> = Vec::new();
    let mut i: usize = 0;
    let ghost all = texts(names@);
    assert(all.take(0) =~= Seq::<Seq<char>>::empty());
    assert(texts(selected@) =~= Seq::<Seq<char>>::empty());
    while i < names.len()
        invariant
            i <= names.len(),
            names.len() == found.len(),
            all == texts(names@),
            texts(selected@) == chosen(all.take(i as int), found@.take(i as int)),
        decreases names.len() - i,
    {
        proof {
            assert(all.take(i + 1).drop_last() =~= all.take(i as int));
            assert(found@.take(i + 1).drop_last() =~= found@.take(i as int));
            assert(all.take(i + 1).last() == names@[i as int]@);
        }
        if found[i] {
            let name = names[i].clone();
            proof {
                assert(texts(selected@.push(name)) =~= texts(selected@).push(name@));
            }
            selected.push(name);
        }
        i += 1;
    }
    assert(all.take(i as int) =~= all);
    assert(found@.take(i as int) =~= found@);
    selected
}

/// The package managers that are installed on this machine, among those
/// that the interpreter knows of. Which of them are installed is for the
/// machine to say: whatever it says, the result holds known managers only.
pub fn detect_pkg_mgrs() -> (managers: Vec<String>)
    ensures
        exists|found: Seq<bool>| texts(managers@) == chosen(known_managers(), found),
{
    let mut names: Vec<String> = Vec::new();
    names.push("pacman".to_owned());
    names.push("apt".to_owned());
    names.push("dnf".to_owned());
    names.push("zypper".to_owned());
    names.push("brew".to_owned());
    assert(texts(names@) =~= known_managers());
    let mut found: Vec<bool> = Vec::new();
    let mut i: usize = 0;
    while i < names.len()
        invariant
            i <= names.len(),
            found.len() == i,
        decreases names.len() - i,
    {
        found.push(is_installed(names[i].as_str()));
        i += 1;
    }
    select_found(&names, &found)
}

/// The line that tells how to install `cmd` on this machine, if a package
/// manager is found.
pub fn install_hint(cmd: &str) -> (hint: Option<String>)
    ensures
        exists|found: Seq<bool>|
            match hint {
                Some(h) => install_hint_spec(chosen(known_managers(), found), cmd@) == Some(h@),
                None => install_hint_spec(chosen(known_managers(), found), cmd@) is None,
            },
{
    let managers = detect_pkg_mgrs();
    install_hint_for(cmd, &managers)
}

/// The note that tells where the interpreter looked for a program, given the
/// value of `PATH`: its first three directories, and how many more there are.
pub open spec fn path_note(path: Seq<char>) -> Seq<char> {
    let parts = split_on(path, ':');
    let shown = if parts.len() < 3 {
        parts.len() as int
    } else {
        3
    };
    if parts.len() > 3 {
        "searched PATH: "@ + join_with(parts.take(shown), ":"@) + " (+"@ + decimal(
            (parts.len() - 3) as nat,
        ) + " more)"@
    } else {
        "searched PATH: "@ + join_with(parts.take(shown), ":"@)
    }
}

/// The note that tells where the interpreter looked for a program; nothing
/// where `PATH` is not set.
pub fn truncated_path_note(path: Option<&str>) -> (note: Option<String>)
    ensures
        match path {
            Some(p) => note matches Some(n) && n@ == path_note(p@),
            None => note is None,
        },
{
    match path {
        None => None,
        Some(p) => {
            let parts = split_at_char(p, ':');
            let shown: usize = if parts.len() < 3 {
                parts.len()
            } else {
                3
            };
            let mut note = "searched PATH: ".to_owned();
            let list = join_first(&parts, shown, ":");
            note.append(list.as_str());
            if parts.len() > 3 {
                note.append(" (+");
                push_decimal(&mut note, (parts.len() - 3) as u64);
                note.append(" more)");
            }
            Some(note)
        },
    }
}

/// The kind of a line of an error report.
#[derive(Debug, PartialEq, Eq, Clone, Copy)]
pub enum Label {
    /// The error itself.
    Error,
    /// Advice on what to do.
    Help,
    /// Something to know.
    Note,
}

/// The lines of the report for `error`: its message; and for a command that
/// was not found, the names that were meant perhaps, the hint on how to
/// install it, and the note on where it was looked for, each where there is
/// one.
pub open spec fn report_spec(
    error: ErrorView,
    suggestions: Seq<Seq<char>>,
    hint: Option<Seq<char>>,
    note: Option<Seq<char>>,
) -> Seq<(Label, Seq<char>)> {
    let first = seq![(Label::Error, error.message())];
    if error is CommandNotFound {
        first + (if suggestions.len() > 0 {
            seq![(Label::Help, "did you mean "@ + join_with(suggestions, ", "@))]
        } else {
            Seq::empty()
        }) + (match hint {
            Some(h) => seq![(Label::Help, h)],
            None => Seq::empty(),
        }) + (match note {
            Some(n) => seq![(Label::Note, n)],
            None => Seq::empty(),
        })
    } else {
        first
    }
}

/// The views of the lines of a report.
pub open spec fn report_views(lines: Seq<(Label, String)>) -> Seq<(Label, Seq<char>)> {
    lines.map_values(|l: (Label, String)| (l.0, l.1@))
}

/// The lines of the report for `error`, given the suggestions, the install
/// hint and the path note that were found for it.
pub fn print_error(
    error: &ShellError,
    suggestions: &Vec<String>,
    hint: Option<String>,
    note: Option<String>,
) -> (lines: Vec<(Label, String)>)
    ensures
        report_views(lines@) == report_spec(
            error@,
            texts(suggestions@),
            crate::shell_config::optional_text(hint),
            crate::shell_config::optional_text(note),
        ),
{
    let mut lines: Vec<(Label, String)> = Vec::new();
    lines.push((Label::Error, error.message()));
    let ghost first = seq![(Label::Error, error@.message())];
    assert(report_views(lines@) =~= first);
    match error {
        ShellError::CommandNotFound { .. } => {
            if suggestions.len() > 0 {
                let mut text = "did you mean ".to_owned();
                assert(texts(suggestions@).take(suggestions.len() as int) =~= texts(suggestions@));
                let list = join_first(suggestions, suggestions.len(), ", ");
                text.append(list.as_str());
                lines.push((Label::Help, text));
            }
            let ghost second = report_views(lines@);
            assert(second =~= first + (if suggestions.len() > 0 {
                seq![(Label::Help, "did you mean "@ + join_with(texts(suggestions@), ", "@))]
            } else {
                Seq::empty()
            }));
            match hint {
                Some(h) => {
                    lines.push((Label::Help, h));
                },
                None => {},
            }
            let ghost third = report_views(lines@);
            assert(third =~= second + (match hint {
                Some(h) => seq![(Label::Help, h@)],
                None => Seq::empty(),
            }));
            match note {
                Some(n) => {
                    lines.push((Label::Note, n));
                },
                None => {},
            }
            assert(report_views(lines@) =~= third + (match note {
                Some(n) => seq![(Label::Note, n@)],
                None => Seq::empty(),
            }));
        },
        _ => {},
    }
    lines
}

} // verus!
