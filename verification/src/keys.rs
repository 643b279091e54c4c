use vstd::prelude::*;
use vstd::slice::slice_to_vec;
use vstd::string::StringExecFns;

verus! {

/// A logical key of a macro.
#[allow(non_camel_case_types)]
#[derive(Clone, Copy, Debug, PartialEq, Eq, Structural, Hash)]
pub enum LocalKey {
    UP,
    DOWN,
    LEFT,
    RIGHT,
    /// Opens the stratagem menu.
    OPEN,
    /// Throws the stratagem, usually the left mouse button.
    THROW,
    /// Replays the last macro.
    RESEND,
    /// Push-to-talk.
    PTT,
    /// One-click completion: screen capture and automatic dialing.
    OCC,
}

/// The position of a logical key in a key map.
pub open spec fn slot_of(k: LocalKey) -> int {
    match k {
        LocalKey::UP => 0,
        LocalKey::DOWN => 1,
        LocalKey::LEFT => 2,
        LocalKey::RIGHT => 3,
        LocalKey::OPEN => 4,
        LocalKey::THROW => 5,
        LocalKey::RESEND => 6,
        LocalKey::PTT => 7,
        LocalKey::OCC => 8,
    }
}

/// The position of a logical key in a key map.
pub fn key_slot(k: LocalKey) -> (r: usize)
    ensures
        r == slot_of(k),
        r < 9,
{
    match k {
        LocalKey::UP => 0,
        LocalKey::DOWN => 1,
        LocalKey::LEFT => 2,
        LocalKey::RIGHT => 3,
        LocalKey::OPEN => 4,
        LocalKey::THROW => 5,
        LocalKey::RESEND => 6,
        LocalKey::PTT => 7,
        LocalKey::OCC => 8,
    }
}

/// The upper-case name of a logical key.
pub open spec fn key_name(k: LocalKey) -> Seq<char> {
    match k {
        LocalKey::UP => seq!['U', 'P'],
        LocalKey::DOWN => seq!['D', 'O', 'W', 'N'],
        LocalKey::LEFT => seq!['L', 'E', 'F', 'T'],
        LocalKey::RIGHT => seq!['R', 'I', 'G', 'H', 'T'],
        LocalKey::OPEN => seq!['O', 'P', 'E', 'N'],
        LocalKey::THROW => seq!['T', 'H', 'R', 'O', 'W'],
        LocalKey::RESEND => seq!['R', 'E', 'S', 'E', 'N', 'D'],
        LocalKey::PTT => seq!['P', 'T', 'T'],
        LocalKey::OCC => seq!['O', 'C', 'C'],
    }
}

/// Timings of simulated key presses, in milliseconds.
#[derive(Clone, Copy, Debug, PartialEq, Eq, Structural)]
pub struct KeyPresserConfig {
    /// Wait after opening the stratagem menu.
    pub wait_open_time: u64,
    /// Time a key is held before it is released.
    pub key_release_interval: u64,
    /// Pause between two keys.
    pub diff_key_interval: u64,
}

impl Default for KeyPresserConfig {
    fn default() -> (r: Self)
        ensures
            r.wait_open_time == 30,
            r.key_release_interval == 30,
            r.diff_key_interval == 20,
    {
        KeyPresserConfig { wait_open_time: 30, key_release_interval: 30, diff_key_interval: 20 }
    }
}

/// The physical inputs bound to logical keys; a physical input is an opaque
/// identifier handed out by the caller.
#[derive(Clone, Copy, Debug)]
pub struct KeyMap {
    pub slots: [Option<u64>; 9],
}

impl KeyMap {
    /// The physical input bound to `k`, if any.
    pub open spec fn binding(self, k: LocalKey) -> Option<u64> {
        self.slots@[slot_of(k)]
    }

    /// A key map that binds nothing.
    pub fn empty() -> (r: KeyMap)
        ensures
            forall|k: LocalKey| r.binding(k) is None,
    {
        KeyMap { slots: [None; 9] }
    }

    /// The physical input bound to `k`, if any.
    pub fn get(&self, k: LocalKey) -> (r: Option<u64>)
        ensures
            r == self.binding(k),
    {
        self.slots[key_slot(k)]
    }

    /// Binds `k` to `input`, replacing an earlier binding of `k`.
    pub fn insert(&mut self, k: LocalKey, input: u64)
        ensures
            final(self).binding(k) == Some(input),
            forall|j: LocalKey| j != k ==> final(self).binding(j) == old(self).binding(j),
    {
        let i = key_slot(k);
        self.slots[i] = Some(input);
        assert forall|j: LocalKey| j != k implies slot_of(j) != slot_of(k) by {}
    }
}

/// The logical keys every key map has to bind, in the order they are checked.
pub open spec fn required_keys() -> Seq<LocalKey> {
    seq![LocalKey::UP, LocalKey::DOWN, LocalKey::LEFT, LocalKey::RIGHT, LocalKey::OPEN, LocalKey::THROW]
}

/// The first required key that `m` leaves unbound, if any.
pub open spec fn first_unbound(m: KeyMap, keys: Seq<LocalKey>) -> Option<LocalKey>
    decreases keys.len(),
{
    if keys.len() == 0 {
        None
    } else if m.binding(keys[0]) is None {
        Some(keys[0])
    } else {
        first_unbound(m, keys.drop_first())
    }
}

/// Checks that `m` binds UP, DOWN, LEFT, RIGHT, OPEN and THROW; the error
/// names the first of them, in that order, that is unbound.
pub fn check_key_map(m: &KeyMap) -> (r: Result<(), LocalKey>)
    ensures
        r is Ok <==> first_unbound(*m, required_keys()) is None,
        r matches Err(k) ==> first_unbound(*m, required_keys()) == Some(k),
{
    let required = [LocalKey::UP, LocalKey::DOWN, LocalKey::LEFT, LocalKey::RIGHT, LocalKey::OPEN, LocalKey::THROW];
    assert(required@ == required_keys());
    assert(required_keys().skip(0) == required_keys());
    let mut i: usize = 0;
    while i < 6
        invariant
            i <= 6,
            required@ == required_keys(),
            first_unbound(*m, required_keys()) == first_unbound(*m, required_keys().skip(i as int)),
        decreases 6 - i,
    {
        let k = required[i];
        assert(required_keys().skip(i as int).drop_first() == required_keys().skip(i as int + 1));
        if m.get(k).is_none() {
            return Err(k);
        }
        i += 1;
    }
    assert(required_keys().skip(6).len() == 0);
    Ok(())
}

/// Why a key sequence cannot be a macro.
#[derive(Clone, Copy, Debug, PartialEq, Eq, Structural)]
pub enum MacroError {
    /// The sequence is empty.
    Empty,
    /// The sequence holds RESEND.
    ContainsResend,
    /// OPEN stands elsewhere than first.
    OpenNotFirst,
    /// THROW stands elsewhere than last.
    ThrowNotLast,
}

/// The message of a macro error.
pub open spec fn macro_error_text(e: MacroError) -> Seq<char> {
    match e {
        MacroError::Empty => "keys must not be empty"@,
        MacroError::ContainsResend => "cannot use RESEND key in a macro"@,
        MacroError::OpenNotFirst => "OPEN key must be the first key"@,
        MacroError::ThrowNotLast => "THROW key must be the last key"@,
    }
}

/// The message of a macro error.
pub fn macro_error_message(e: MacroError) -> (r: String)
    ensures
        r@ == macro_error_text(e),
{
    match e {
        MacroError::Empty => String::from_str("keys must not be empty"),
        MacroError::ContainsResend => String::from_str("cannot use RESEND key in a macro"),
        MacroError::OpenNotFirst => String::from_str("OPEN key must be the first key"),
        MacroError::ThrowNotLast => String::from_str("THROW key must be the last key"),
    }
}

/// The message for a key that the key map leaves unbound.
pub fn missing_mapping_message(k: LocalKey) -> (r: String)
    ensures
        r@ == "Missing mapping for LocalKey: "@ + key_name(k),
{
    String::from_str("Missing mapping for LocalKey: ").concat(crate::ai::local_key_name(k))
}

/// The first OPEN or THROW strictly between the first and the last key.
pub open spec fn first_inner_marker(keys: Seq<LocalKey>) -> Option<LocalKey> {
    if keys.len() <= 2 {
        None
    } else {
        let inner = keys.subrange(1, keys.len() - 1);
        if exists|i: int| 0 <= i < inner.len() && (inner[i] == LocalKey::OPEN || inner[i] == LocalKey::THROW) {
            let i = choose|i: int|
                0 <= i < inner.len() && (inner[i] == LocalKey::OPEN || inner[i] == LocalKey::THROW)
                    && forall|j: int| 0 <= j < i ==> inner[j] != LocalKey::OPEN && inner[j] != LocalKey::THROW;
            Some(inner[i])
        } else {
            None
        }
    }
}

/// The verdict on a key sequence as a macro.
pub open spec fn macro_verdict(keys: Seq<LocalKey>) -> Result<(), MacroError> {
    if keys.len() == 0 {
        Err(MacroError::Empty)
    } else if keys.contains(LocalKey::RESEND) {
        Err(MacroError::ContainsResend)
    } else if keys.contains(LocalKey::OPEN) && keys[0] != LocalKey::OPEN {
        Err(MacroError::OpenNotFirst)
    } else if keys.contains(LocalKey::THROW) && keys.last() != LocalKey::THROW {
        Err(MacroError::ThrowNotLast)
    } else {
        match first_inner_marker(keys) {
            Some(LocalKey::OPEN) => Err(MacroError::OpenNotFirst),
            Some(_) => Err(MacroError::ThrowNotLast),
            None => Ok(()),
        }
    }
}

/// Whether `k` occurs in `keys`.
pub fn contains_key(keys: &[LocalKey], k: LocalKey) -> (r: bool)
    ensures
        r == keys@.contains(k),
{
    let n = keys.len();
    let mut i: usize = 0;
    while i < n
        invariant
            n == keys@.len(),
            i <= n,
            forall|j: int| 0 <= j < i ==> keys@[j] != k,
        decreases n - i,
    {
        if keys[i] == k {
            assert(keys@[i as int] == k);
            return true;
        }
        i += 1;
    }
    false
}

/// Checks a key sequence as a macro: it must be non-empty, must not hold
/// RESEND, may hold OPEN only first and THROW only last.
pub fn has_validity(keys: &[LocalKey]) -> (r: Result<(), MacroError>)
    ensures
        r == macro_verdict(keys@),
{
    let n = keys.len();
    if n == 0 {
        return Err(MacroError::Empty);
    }
    if contains_key(keys, LocalKey::RESEND) {
        return Err(MacroError::ContainsResend);
    }
    let has_open = contains_key(keys, LocalKey::OPEN);
    let has_throw = contains_key(keys, LocalKey::THROW);
    if has_open && keys[0] != LocalKey::OPEN {
        return Err(MacroError::OpenNotFirst);
    }
    if has_throw && keys[n - 1] != LocalKey::THROW {
        return Err(MacroError::ThrowNotLast);
    }
    if n > 2 {
        let ghost inner = keys@.subrange(1, n - 1);
        let mut i: usize = 1;
        while i < n - 1
            invariant
                n == keys@.len(),
                n > 2,
                1 <= i <= n - 1,
                inner == keys@.subrange(1, n - 1),
                !keys@.contains(LocalKey::RESEND),
                keys@.contains(LocalKey::OPEN) ==> keys@[0] == LocalKey::OPEN,
                keys@.contains(LocalKey::THROW) ==> keys@.last() == LocalKey::THROW,
                forall|j: int| 0 <= j < i - 1 ==> inner[j] != LocalKey::OPEN && inner[j] != LocalKey::THROW,
            decreases n - 1 - i,
        {
            let k = keys[i];
            if k == LocalKey::OPEN || k == LocalKey::THROW {
                proof {
                    let w = (i - 1) as int;
                    assert(inner[w] == k);
                    assert(0 <= w < inner.len() && (inner[w] == LocalKey::OPEN || inner[w] == LocalKey::THROW)
                        && forall|j: int| 0 <= j < w ==> inner[j] != LocalKey::OPEN && inner[j] != LocalKey::THROW);
                    let c = choose|c: int|
                        0 <= c < inner.len() && (inner[c] == LocalKey::OPEN || inner[c] == LocalKey::THROW)
                            && forall|j: int| 0 <= j < c ==> inner[j] != LocalKey::OPEN && inner[j] != LocalKey::THROW;
                    assert(c == w) by {
                        if c < w {
                            assert(inner[c] != LocalKey::OPEN && inner[c] != LocalKey::THROW);
                        } else if c > w {
                            assert(inner[w] != LocalKey::OPEN && inner[w] != LocalKey::THROW);
                        }
                    }
                }
                if k == LocalKey::OPEN {
                    return Err(MacroError::OpenNotFirst);
                }
                return Err(MacroError::ThrowNotLast);
            }
            i += 1;
        }
    }
    Ok(())
}


/// One step of a simulated macro.
#[derive(Clone, Copy, Debug, PartialEq, Eq, Structural)]
pub enum KeyStep {
    /// Press the physical input.
    Press(u64),
    /// Release the physical input.
    Release(u64),
    /// Wait this many milliseconds.
    Sleep(u64),
}

/// Whether `m` binds every key of `keys`.
pub open spec fn all_bound(m: KeyMap, keys: Seq<LocalKey>) -> bool {
    forall|i: int| 0 <= i < keys.len() ==> m.binding(#[trigger] keys[i]) is Some
}

/// Simulates `keys` left to right: the steps so far, whether the wait after
/// opening the menu is behind, and the release of OPEN that is still due.
/// OPEN is pressed and held until the end; each other key is pressed, held
/// and released, the first one after OPEN preceded by the wait for the menu.
pub open spec fn plan_fold(keys: Seq<LocalKey>, fast: bool, c: KeyPresserConfig, m: KeyMap) -> (
    Seq<KeyStep>,
    bool,
    Option<u64>,
)
    decreases keys.len(),
{
    if keys.len() == 0 {
        (Seq::empty(), fast, None)
    } else {
        let prev = plan_fold(keys.drop_last(), fast, c, m);
        let k = keys.last();
        let input = m.binding(k)->0;
        if k == LocalKey::OPEN {
            (prev.0.push(KeyStep::Press(input)), false, Some(input))
        } else {
            let wait = if !prev.1 {
                seq![KeyStep::Sleep(c.wait_open_time)]
            } else {
                Seq::empty()
            };
            (
                prev.0 + wait + seq![
                    KeyStep::Press(input),
                    KeyStep::Sleep(c.key_release_interval),
                    KeyStep::Release(input),
                    KeyStep::Sleep(c.diff_key_interval),
                ],
                true,
                prev.2,
            )
        }
    }
}

/// The steps that simulate the macro `keys`: a fast macro skips the wait for
/// the menu unless it opens the menu itself; OPEN is released last.
pub open spec fn key_plan(keys: Seq<LocalKey>, fast: bool, c: KeyPresserConfig, m: KeyMap) -> Seq<KeyStep> {
    let f = plan_fold(keys, fast, c, m);
    match f.2 {
        Some(e) => f.0.push(KeyStep::Release(e)),
        None => f.0,
    }
}

/// The steps that simulate the macro `keys`.
pub fn plan_key_steps(keys: &[LocalKey], fast: bool, c: &KeyPresserConfig, m: &KeyMap) -> (r: Vec<KeyStep>)
    requires
        all_bound(*m, keys@),
    ensures
        r@ == key_plan(keys@, fast, *c, *m),
{
    let mut steps: Vec<KeyStep> = Vec::new();
    let mut waited = fast;
    let mut open_release: Option<u64> = None;
    let n = keys.len();
    let mut i: usize = 0;
    while i < n
        invariant
            n == keys@.len(),
            i <= n,
            all_bound(*m, keys@),
            (steps@, waited, open_release) == plan_fold(keys@.take(i as int), fast, *c, *m),
        decreases n - i,
    {
        let k = keys[i];
        assert(keys@.take(i as int + 1).drop_last() == keys@.take(i as int));
        assert(m.binding(keys@[i as int]) is Some);
        let input = match m.get(k) {
            Some(v) => v,
            None => 0,
        };
        let ghost before = steps@;
        if k == LocalKey::OPEN {
            steps.push(KeyStep::Press(input));
            open_release = Some(input);
            waited = false;
        } else {
            let ghost w = waited;
            if !waited {
                steps.push(KeyStep::Sleep(c.wait_open_time));
                waited = true;
            }
            steps.push(KeyStep::Press(input));
            steps.push(KeyStep::Sleep(c.key_release_interval));
            steps.push(KeyStep::Release(input));
            steps.push(KeyStep::Sleep(c.diff_key_interval));
            proof {
                let wait = if !w {
                    seq![KeyStep::Sleep(c.wait_open_time)]
                } else {
                    Seq::<KeyStep>::empty()
                };
                assert(steps@ =~= before + wait + seq![
                    KeyStep::Press(input),
                    KeyStep::Sleep(c.key_release_interval),
                    KeyStep::Release(input),
                    KeyStep::Sleep(c.diff_key_interval),
                ]);
            }
        }
        i += 1;
    }
    assert(keys@.take(n as int) == keys@);
    if let Some(e) = open_release {
        steps.push(KeyStep::Release(e));
    }
    steps
}

/// How many steps of `s` press a key.
pub open spec fn press_count(s: Seq<KeyStep>) -> nat
    decreases s.len(),
{
    if s.len() == 0 {
        0
    } else {
        press_count(s.drop_last()) + if s.last() is Press { 1nat } else { 0nat }
    }
}

/// How many steps of `s` release a key.
pub open spec fn release_count(s: Seq<KeyStep>) -> nat
    decreases s.len(),
{
    if s.len() == 0 {
        0
    } else {
        release_count(s.drop_last()) + if s.last() is Release { 1nat } else { 0nat }
    }
}

/// How often `k` occurs in `keys`.
pub open spec fn key_count(keys: Seq<LocalKey>, k: LocalKey) -> nat
    decreases keys.len(),
{
    if keys.len() == 0 {
        0
    } else {
        key_count(keys.drop_last(), k) + if keys.last() == k { 1nat } else { 0nat }
    }
}

proof fn lemma_counts_concat(a: Seq<KeyStep>, b: Seq<KeyStep>)
    ensures
        press_count(a + b) == press_count(a) + press_count(b),
        release_count(a + b) == release_count(a) + release_count(b),
    decreases b.len(),
{
    if b.len() == 0 {
        assert(a + b == a);
    } else {
        lemma_counts_concat(a, b.drop_last());
        assert((a + b).drop_last() == a + b.drop_last());
    }
}

proof fn lemma_plan_fold_counts(keys: Seq<LocalKey>, fast: bool, c: KeyPresserConfig, m: KeyMap)
    ensures
        press_count(plan_fold(keys, fast, c, m).0) == keys.len(),
        release_count(plan_fold(keys, fast, c, m).0) + key_count(keys, LocalKey::OPEN) == keys.len(),
        plan_fold(keys, fast, c, m).2 is Some <==> key_count(keys, LocalKey::OPEN) > 0,
    decreases keys.len(),
{
    if keys.len() > 0 {
        let prev = plan_fold(keys.drop_last(), fast, c, m);
        lemma_plan_fold_counts(keys.drop_last(), fast, c, m);
        let k = keys.last();
        let input = m.binding(k)->0;
        if k == LocalKey::OPEN {
            lemma_counts_concat(prev.0, seq![KeyStep::Press(input)]);
            assert(prev.0 + seq![KeyStep::Press(input)] == prev.0.push(KeyStep::Press(input)));
            reveal_with_fuel(press_count, 2);
            reveal_with_fuel(release_count, 2);
        } else {
            let wait = if !prev.1 {
                seq![KeyStep::Sleep(c.wait_open_time)]
            } else {
                Seq::<KeyStep>::empty()
            };
            let body = seq![
                KeyStep::Press(input),
                KeyStep::Sleep(c.key_release_interval),
                KeyStep::Release(input),
                KeyStep::Sleep(c.diff_key_interval),
            ];
            lemma_counts_concat(prev.0 + wait, body);
            lemma_counts_concat(prev.0, wait);
            reveal_with_fuel(press_count, 5);
            reveal_with_fuel(release_count, 5);
            assert(body.drop_last().drop_last().drop_last().drop_last().len() == 0);
        }
    }
}

/// Every key of a macro is pressed exactly once by its simulation, and every
/// press is matched by a release when OPEN occurs at most once in the macro.
pub proof fn lemma_plan_balanced(keys: Seq<LocalKey>, fast: bool, c: KeyPresserConfig, m: KeyMap)
    requires
        key_count(keys, LocalKey::OPEN) <= 1,
    ensures
        press_count(key_plan(keys, fast, c, m)) == keys.len(),
        release_count(key_plan(keys, fast, c, m)) == press_count(key_plan(keys, fast, c, m)),
{
    lemma_plan_fold_counts(keys, fast, c, m);
    let f = plan_fold(keys, fast, c, m);
    if let Some(e) = f.2 {
        lemma_counts_concat(f.0, seq![KeyStep::Release(e)]);
        assert(f.0 + seq![KeyStep::Release(e)] == f.0.push(KeyStep::Release(e)));
        reveal_with_fuel(press_count, 2);
        reveal_with_fuel(release_count, 2);
    }
}


proof fn lemma_plan_fold_prefix(keys: Seq<LocalKey>, fast: bool, c: KeyPresserConfig, m: KeyMap, t: int)
    requires
        0 <= t <= keys.len(),
    ensures
        plan_fold(keys.take(t), fast, c, m).0.len() <= plan_fold(keys, fast, c, m).0.len(),
        plan_fold(keys, fast, c, m).0.take(plan_fold(keys.take(t), fast, c, m).0.len() as int) == plan_fold(
            keys.take(t),
            fast,
            c,
            m,
        ).0,
    decreases keys.len(),
{
    if t == keys.len() {
        assert(keys.take(t) =~= keys);
        assert(plan_fold(keys, fast, c, m).0.take(plan_fold(keys, fast, c, m).0.len() as int) =~= plan_fold(
            keys,
            fast,
            c,
            m,
        ).0);
    } else {
        let init = keys.drop_last();
        lemma_plan_fold_prefix(init, fast, c, m, t);
        assert(init.take(t) =~= keys.take(t));
        let small = plan_fold(keys.take(t), fast, c, m).0;
        let prev = plan_fold(init, fast, c, m).0;
        let whole = plan_fold(keys, fast, c, m).0;
        assert(whole.len() >= prev.len());
        assert forall|i: int| 0 <= i < prev.len() implies whole[i] == prev[i] by {}
        assert(whole.take(small.len() as int) =~= prev.take(small.len() as int));
    }
}

/// A macro that opens the menu waits for it: whenever OPEN is followed by
/// another key, the simulation presses OPEN, then sleeps the wait for the
/// menu, then presses that key, whether the macro is fast or not.
pub proof fn lemma_open_waits_for_menu(keys: Seq<LocalKey>, fast: bool, c: KeyPresserConfig, m: KeyMap, j: int)
    requires
        0 <= j,
        j + 1 < keys.len(),
        keys[j] == LocalKey::OPEN,
        keys[j + 1] != LocalKey::OPEN,
    ensures
        exists|p: int|
            0 <= p && p + 2 < key_plan(keys, fast, c, m).len() && #[trigger] key_plan(keys, fast, c, m)[p]
                == KeyStep::Press(m.binding(LocalKey::OPEN)->0) && key_plan(keys, fast, c, m)[p + 1]
                == KeyStep::Sleep(c.wait_open_time) && key_plan(keys, fast, c, m)[p + 2] == KeyStep::Press(
                m.binding(keys[j + 1])->0,
            ),
{
    let a = plan_fold(keys.take(j), fast, c, m);
    let b = plan_fold(keys.take(j + 1), fast, c, m);
    let d = plan_fold(keys.take(j + 2), fast, c, m);
    assert(keys.take(j + 1).drop_last() =~= keys.take(j));
    assert(keys.take(j + 1).last() == LocalKey::OPEN);
    assert(b == (a.0.push(KeyStep::Press(m.binding(LocalKey::OPEN)->0)), false, Some(m.binding(LocalKey::OPEN)->0)));
    assert(keys.take(j + 2).drop_last() =~= keys.take(j + 1));
    assert(keys.take(j + 2).last() == keys[j + 1]);
    let x = m.binding(keys[j + 1])->0;
    assert(d.0 == b.0 + seq![KeyStep::Sleep(c.wait_open_time)] + seq![
        KeyStep::Press(x),
        KeyStep::Sleep(c.key_release_interval),
        KeyStep::Release(x),
        KeyStep::Sleep(c.diff_key_interval),
    ]);
    let p = a.0.len() as int;
    assert(d.0[p] == KeyStep::Press(m.binding(LocalKey::OPEN)->0));
    assert(d.0[p + 1] == KeyStep::Sleep(c.wait_open_time));
    assert(d.0[p + 2] == KeyStep::Press(x));
    lemma_plan_fold_prefix(keys, fast, c, m, j + 2);
    let f = plan_fold(keys, fast, c, m);
    assert(f.0.take(d.0.len() as int) == d.0);
    assert(f.0[p] == d.0[p] && f.0[p + 1] == d.0[p + 1] && f.0[p + 2] == d.0[p + 2]) by {
        assert(f.0.take(d.0.len() as int)[p] == f.0[p]);
        assert(f.0.take(d.0.len() as int)[p + 1] == f.0[p + 1]);
        assert(f.0.take(d.0.len() as int)[p + 2] == f.0[p + 2]);
    }
    let plan = key_plan(keys, fast, c, m);
    assert(plan[p] == f.0[p] && plan[p + 1] == f.0[p + 1] && plan[p + 2] == f.0[p + 2]);
    assert(0 <= p && p + 2 < plan.len() && plan[p] == KeyStep::Press(m.binding(LocalKey::OPEN)->0) && plan[p + 1]
        == KeyStep::Sleep(c.wait_open_time) && plan[p + 2] == KeyStep::Press(x));
}

/// A macro handed to the worker that simulates key presses.
#[derive(Debug)]
pub struct KeyJob {
    pub keys: Vec<LocalKey>,
    /// A fast job skips the wait for the menu unless it opens the menu itself.
    pub fast: bool,
}

/// The view of an optional macro.
pub open spec fn macro_view(o: Option<Vec<LocalKey>>) -> Option<Seq<LocalKey>> {
    match o {
        Some(v) => Some(v@),
        None => None,
    }
}

/// The view of an optional job: its keys and whether it is fast.
pub open spec fn job_view(o: Option<KeyJob>) -> Option<(Seq<LocalKey>, bool)> {
    match o {
        Some(j) => Some((j.keys@, j.fast)),
        None => None,
    }
}

/// Physical shortcuts bound to macros; a later entry for the same input
/// overrides an earlier one.
#[derive(Debug)]
pub struct Shortcuts {
    pub entries: Vec<(u64, Vec<LocalKey>)>,
}

/// The macro bound to `input` by the last entry that names it.
pub open spec fn shortcut_for(entries: Seq<(u64, Vec<LocalKey>)>, input: u64) -> Option<Seq<LocalKey>>
    decreases entries.len(),
{
    if entries.len() == 0 {
        None
    } else if entries.last().0 == input {
        Some(entries.last().1@)
    } else {
        shortcut_for(entries.drop_last(), input)
    }
}

impl Shortcuts {
    /// The macro bound to `input`, if any.
    pub fn lookup(&self, input: u64) -> (r: Option<Vec<LocalKey>>)
        ensures
            macro_view(r) == shortcut_for(self.entries@, input),
    {
        let mut i = self.entries.len();
        assert(self.entries@.take(i as int) == self.entries@);
        while i > 0
            invariant
                i <= self.entries@.len(),
                shortcut_for(self.entries@, input) == shortcut_for(self.entries@.take(i as int), input),
            decreases i,
        {
            assert(self.entries@.take(i as int).drop_last() == self.entries@.take(i as int - 1));
            if self.entries[i - 1].0 == input {
                return Some(self.entries[i - 1].1.clone());
            }
            i -= 1;
        }
        None
    }
}

/// The state of the macro queue: the macro that OPEN will send next and the
/// last stored macro that RESEND brings back.
pub open spec fn queue_push(state: (Option<Seq<LocalKey>>, Option<Seq<LocalKey>>), keys: Seq<LocalKey>) -> (
    (Option<Seq<LocalKey>>, Option<Seq<LocalKey>>),
    Option<(Seq<LocalKey>, bool)>,
) {
    if keys.len() == 0 {
        (state, None)
    } else if keys[0] == LocalKey::OPEN {
        (state, Some((keys, false)))
    } else {
        ((Some(keys), Some(keys)), None)
    }
}

/// What a press of physical input `input` does to the queue, and the job it
/// sends, while no simulated keys are being injected.
pub open spec fn queue_press(
    state: (Option<Seq<LocalKey>>, Option<Seq<LocalKey>>),
    input: u64,
    open_key: u64,
    resend_key: u64,
    shortcuts: Seq<(u64, Vec<LocalKey>)>,
) -> ((Option<Seq<LocalKey>>, Option<Seq<LocalKey>>), Option<(Seq<LocalKey>, bool)>) {
    if input == open_key {
        match state.0 {
            Some(keys) => ((None, state.1), Some((keys, false))),
            None => (state, None),
        }
    } else if input == resend_key {
        match state.1 {
            Some(keys) => ((Some(keys), state.1), None),
            None => (state, None),
        }
    } else {
        match shortcut_for(shortcuts, input) {
            Some(keys) => (state, Some((keys, true))),
            None => (state, None),
        }
    }
}

/// Macros waiting for the player to open the stratagem menu.
#[derive(Debug)]
pub struct MacroQueue {
    /// The macro that the next OPEN press sends.
    pub one_stack: Option<Vec<LocalKey>>,
    /// The last stored macro, which RESEND arms again.
    pub spare_stack: Option<Vec<LocalKey>>,
}

impl MacroQueue {
    /// The queue as a pair of optional macros.
    pub open spec fn state(self) -> (Option<Seq<LocalKey>>, Option<Seq<LocalKey>>) {
        (macro_view(self.one_stack), macro_view(self.spare_stack))
    }

    /// An empty queue.
    pub fn new() -> (r: MacroQueue)
        ensures
            r.state() == (None::<Seq<LocalKey>>, None::<Seq<LocalKey>>),
    {
        MacroQueue { one_stack: None, spare_stack: None }
    }

    /// Hands a macro in: one that opens the menu itself is sent at once as a
    /// slow job; any other non-empty macro waits for the player's OPEN press.
    pub fn push(&mut self, keys: &[LocalKey]) -> (job: Option<KeyJob>)
        ensures
            (final(self).state(), job_view(job)) == queue_push(old(self).state(), keys@),
    {
        if keys.len() == 0 {
            return None;
        }
        let v = slice_to_vec(keys);
        if keys[0] == LocalKey::OPEN {
            return Some(KeyJob { keys: v, fast: false });
        }
        self.one_stack = Some(v.clone());
        self.spare_stack = Some(v);
        None
    }

    /// Handles a press of a physical input: nothing while simulated keys are
    /// being injected; OPEN sends the waiting macro once; RESEND arms the
    /// last stored macro again; a shortcut sends its macro as a fast job.
    pub fn on_press(
        &mut self,
        input: u64,
        simulating: bool,
        open_key: u64,
        resend_key: u64,
        shortcuts: &Shortcuts,
    ) -> (job: Option<KeyJob>)
        ensures
            simulating ==> final(self).state() == old(self).state() && job is None,
            !simulating ==> (final(self).state(), job_view(job)) == queue_press(
                old(self).state(),
                input,
                open_key,
                resend_key,
                shortcuts.entries@,
            ),
    {
        if simulating {
            return None;
        }
        if input == open_key {
            match self.one_stack.take() {
                Some(keys) => Some(KeyJob { keys, fast: false }),
                None => None,
            }
        } else if input == resend_key {
            match &self.spare_stack {
                Some(keys) => {
                    self.one_stack = Some(keys.clone());
                    None
                },
                None => None,
            }
        } else {
            match shortcuts.lookup(input) {
                Some(keys) => Some(KeyJob { keys, fast: true }),
                None => None,
            }
        }
    }
}

/// A stored macro is sent exactly once by the next OPEN press, and RESEND
/// arms it again for the OPEN press after that.
pub proof fn lemma_open_sends_once_and_resend_rearms(
    state: (Option<Seq<LocalKey>>, Option<Seq<LocalKey>>),
    keys: Seq<LocalKey>,
    open_key: u64,
    resend_key: u64,
    shortcuts: Seq<(u64, Vec<LocalKey>)>,
)
    requires
        keys.len() > 0,
        keys[0] != LocalKey::OPEN,
        open_key != resend_key,
    ensures
        ({
            let s1 = queue_push(state, keys).0;
            let p1 = queue_press(s1, open_key, open_key, resend_key, shortcuts);
            let p2 = queue_press(p1.0, open_key, open_key, resend_key, shortcuts);
            let p3 = queue_press(p2.0, resend_key, open_key, resend_key, shortcuts);
            let p4 = queue_press(p3.0, open_key, open_key, resend_key, shortcuts);
            &&& p1.1 == Some((keys, false))
            &&& p2.1 is None
            &&& p4.1 == Some((keys, false))
        }),
{
}

/// The queue after the presses `presses`, in order, none of them made
/// while simulated keys were being injected.
pub open spec fn queue_after(
    state: (Option<Seq<LocalKey>>, Option<Seq<LocalKey>>),
    presses: Seq<u64>,
    open_key: u64,
    resend_key: u64,
    shortcuts: Seq<(u64, Vec<LocalKey>)>,
) -> (Option<Seq<LocalKey>>, Option<Seq<LocalKey>>)
    decreases presses.len(),
{
    if presses.len() == 0 {
        state
    } else {
        queue_press(
            queue_after(state, presses.drop_last(), open_key, resend_key, shortcuts),
            presses.last(),
            open_key,
            resend_key,
            shortcuts,
        ).0
    }
}

/// Whether a stored macro is armed after `presses`: it is at first; OPEN
/// disarms it and RESEND arms it again; other inputs change nothing.
pub open spec fn armed_after(presses: Seq<u64>, open_key: u64, resend_key: u64) -> bool
    decreases presses.len(),
{
    if presses.len() == 0 {
        true
    } else if presses.last() == open_key {
        false
    } else if presses.last() == resend_key {
        true
    } else {
        armed_after(presses.drop_last(), open_key, resend_key)
    }
}

/// Over any sequence of presses after a macro that does not open the menu
/// itself is pushed: RESEND always has that macro to bring back; an OPEN
/// press sends it, as a slow job, exactly when it is armed (no OPEN since
/// the push or since the last RESEND) and sends nothing otherwise; RESEND
/// sends nothing; any other input sends only its shortcut's macro, as a
/// fast job.
pub proof fn lemma_queue_over_presses(
    state: (Option<Seq<LocalKey>>, Option<Seq<LocalKey>>),
    keys: Seq<LocalKey>,
    presses: Seq<u64>,
    open_key: u64,
    resend_key: u64,
    shortcuts: Seq<(u64, Vec<LocalKey>)>,
)
    requires
        keys.len() > 0,
        keys[0] != LocalKey::OPEN,
    ensures
        queue_after(queue_push(state, keys).0, presses, open_key, resend_key, shortcuts) == (
            if armed_after(presses, open_key, resend_key) {
                Some(keys)
            } else {
                None::<Seq<LocalKey>>
            },
            Some(keys),
        ),
        forall|i: int|
            0 <= i < presses.len() ==> #[trigger] queue_press(
                queue_after(queue_push(state, keys).0, presses.take(i), open_key, resend_key, shortcuts),
                presses[i],
                open_key,
                resend_key,
                shortcuts,
            ).1 == if presses[i] == open_key {
                if armed_after(presses.take(i), open_key, resend_key) {
                    Some((keys, false))
                } else {
                    None
                }
            } else if presses[i] == resend_key {
                None
            } else {
                match shortcut_for(shortcuts, presses[i]) {
                    Some(k) => Some((k, true)),
                    None => None,
                }
            },
    decreases presses.len(),
{
    if presses.len() > 0 {
        lemma_queue_over_presses(state, keys, presses.drop_last(), open_key, resend_key, shortcuts);
    }
    assert forall|i: int| 0 <= i < presses.len() implies #[trigger] queue_press(
        queue_after(queue_push(state, keys).0, presses.take(i), open_key, resend_key, shortcuts),
        presses[i],
        open_key,
        resend_key,
        shortcuts,
    ).1 == if presses[i] == open_key {
        if armed_after(presses.take(i), open_key, resend_key) {
            Some((keys, false))
        } else {
            None
        }
    } else if presses[i] == resend_key {
        None
    } else {
        match shortcut_for(shortcuts, presses[i]) {
            Some(k) => Some((k, true)),
            None => None,
        }
    } by {
        lemma_queue_over_presses(state, keys, presses.take(i), open_key, resend_key, shortcuts);
    }
}

} // verus!
