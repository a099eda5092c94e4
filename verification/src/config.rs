//! The game's configuration: which skin and judge are in use, where charts
//! are found, and the values read from the configuration file that need
//! checking.

use vstd::prelude::*;

verus! {

/// A skin the player can pick, with the directory it is read from.
#[derive(Debug, Clone)]
pub enum SkinEntry {
    Osu(String),
    O2Jam(String),
}

/// A directory charts of one format are read from.
#[derive(Debug, Clone)]
pub enum ChartPath {
    Osu(String),
    O2Jam(String),
}

/// Why the game configuration was refused.
#[derive(Copy, Clone, Debug, PartialEq, Eq, Structural)]
pub enum GameConfigVerifyError {
    /// No skin has the name given as the current skin.
    BadCurrentSkin,
    /// No judge has the name given as the current judge.
    BadCurrentJudge,
}

/// The game configuration as the configuration file gives it: the skins and
/// the judges are listed by name, in the order of their names (the file's
/// tables hold each name once), and the current ones are named.
#[derive(Debug, Clone)]
pub struct UnverifiedGameConfig<J> {
    pub default_osu_skin_path: String,
    pub current_skin: String,
    pub current_judge: String,
    pub skins: Vec<(String, SkinEntry)>,
    pub judges: Vec<(String, J)>,
}

/// The game configuration, with the current skin and judge found.
#[derive(Debug, Clone)]
pub struct GameConfig<J> {
    pub default_osu_skin_path: String,
    /// An index into the `skins` field.
    pub current_skin_index: usize,
    /// An index into the `judges` field.
    pub current_judge_index: usize,
    pub skins: Vec<(String, SkinEntry)>,
    pub judges: Vec<(String, J)>,
}

/// The names of the entries of a list.
pub open spec fn names<T>(v: Seq<(String, T)>) -> Seq<Seq<char>> {
    v.map_values(|e: (String, T)| e.0@)
}

/// `i` is where `name` first occurs in `names`.
pub open spec fn is_first_name(names: Seq<Seq<char>>, name: Seq<char>, i: int) -> bool {
    &&& 0 <= i < names.len()
    &&& names[i] == name
    &&& forall|j: int| 0 <= j < i ==> names[j] != name
}

/// `a` comes before `b` in the order of names: the order of their characters'
/// code points, a name before every longer name that starts with it.
pub open spec fn name_lt(a: Seq<char>, b: Seq<char>) -> bool
    decreases a.len(),
{
    if b.len() == 0 {
        false
    } else if a.len() == 0 {
        true
    } else if a[0] != b[0] {
        (a[0] as u32) < (b[0] as u32)
    } else {
        name_lt(a.drop_first(), b.drop_first())
    }
}

/// The names are listed in increasing order, so each occurs once, as the keys
/// of a table do.
pub open spec fn names_in_order(n: Seq<Seq<char>>) -> bool {
    forall|i: int, j: int| 0 <= i < j < n.len() ==> name_lt(#[trigger] n[i], #[trigger] n[j])
}

/// No name comes before itself.
pub proof fn lemma_name_lt_irreflexive(a: Seq<char>)
    ensures
        !name_lt(a, a),
    decreases a.len(),
{
    if a.len() > 0 {
        lemma_name_lt_irreflexive(a.drop_first());
    }
}

/// In a list whose names are in order, a name occurs at one index at most.
pub proof fn lemma_ordered_names_distinct(n: Seq<Seq<char>>, i: int, j: int)
    requires
        names_in_order(n),
        0 <= i < n.len(),
        0 <= j < n.len(),
        n[i] == n[j],
    ensures
        i == j,
{
    lemma_name_lt_irreflexive(n[i]);
    if i < j {
        assert(name_lt(n[i], n[j]));
    } else if j < i {
        assert(name_lt(n[j], n[i]));
    }
}

/// Whether `a` comes before `b` in the order of names.
pub fn name_less(a: &str, b: &str) -> (r: bool)
    ensures
        r == name_lt(a@, b@),
{
    let la = a.unicode_len();
    let lb = b.unicode_len();
    let mut i: usize = 0;
    assert(a@.skip(0) =~= a@);
    assert(b@.skip(0) =~= b@);
    while i < la && i < lb
        invariant
            la == a@.len(),
            lb == b@.len(),
            i <= la,
            i <= lb,
            name_lt(a@, b@) == name_lt(a@.skip(i as int), b@.skip(i as int)),
        decreases la - i,
    {
        let ca = a.get_char(i);
        let cb = b.get_char(i);
        assert(a@.skip(i as int)[0] == ca);
        assert(b@.skip(i as int)[0] == cb);
        if ca != cb {
            return (ca as u32) < (cb as u32);
        }
        assert(a@.skip(i as int).drop_first() =~= a@.skip(i + 1));
        assert(b@.skip(i as int).drop_first() =~= b@.skip(i + 1));
        i = i + 1;
    }
    i < lb
}

/// Whether the names of a list are in increasing order.
pub fn entries_in_order<T>(v: &Vec<(String, T)>) -> (r: bool)
    ensures
        r == names_in_order(names(v@)),
{
    let mut i: usize = 1;
    if v.len() == 0 {
        return true;
    }
    while i < v.len()
        invariant
            1 <= i <= v.len(),
            names_in_order(names(v@).take(i as int)),
        decreases v.len() - i,
    {
        if !name_less(v[i - 1].0.as_str(), v[i].0.as_str()) {
            assert(!names_in_order(names(v@))) by {
                assert(!name_lt(names(v@)[i - 1], names(v@)[i as int]));
            }
            return false;
        }
        assert forall|a: int, b: int| 0 <= a < b < i + 1 implies name_lt(
            #[trigger] names(v@).take(i + 1)[a],
            #[trigger] names(v@).take(i + 1)[b],
        ) by {
            if b == i {
                if a < i - 1 {
                    assert(name_lt(names(v@).take(i as int)[a], names(v@).take(i as int)[i - 1]));
                    lemma_name_lt_transitive(names(v@)[a], names(v@)[i - 1], names(v@)[b]);
                }
            } else {
                assert(name_lt(names(v@).take(i as int)[a], names(v@).take(i as int)[b]));
            }
        }
        i = i + 1;
    }
    assert(names(v@).take(i as int) =~= names(v@));
    true
}

/// The order of names is transitive.
pub proof fn lemma_name_lt_transitive(a: Seq<char>, b: Seq<char>, c: Seq<char>)
    requires
        name_lt(a, b),
        name_lt(b, c),
    ensures
        name_lt(a, c),
    decreases a.len(),
{
    if a.len() > 0 && b.len() > 0 && c.len() > 0 && a[0] == b[0] && b[0] == c[0] {
        lemma_name_lt_transitive(a.drop_first(), b.drop_first(), c.drop_first());
    }
}

impl<J> GameConfig<J> {
    pub open spec fn skin_index(&self) -> int {
        self.current_skin_index as int
    }

    pub open spec fn judge_index(&self) -> int {
        self.current_judge_index as int
    }

    /// The names of the skins and of the judges are each in order, and the
    /// indices point into the lists.
    pub open spec fn wf(&self) -> bool {
        &&& names_in_order(names(self.skins@))
        &&& names_in_order(names(self.judges@))
        &&& 0 <= self.skin_index() < self.skins.len()
        &&& 0 <= self.judge_index() < self.judges.len()
    }

    /// The current skin, with its name.
    pub fn current_skin(&self) -> (r: &(String, SkinEntry))
        requires
            self.wf(),
        ensures
            *r == self.skins@[self.skin_index()],
    {
        &self.skins[self.current_skin_index]
    }

    /// The current judge, with its name.
    pub fn current_judge(&self) -> (r: &(String, J))
        requires
            self.wf(),
        ensures
            *r == self.judges@[self.judge_index()],
    {
        &self.judges[self.current_judge_index]
    }
}

fn find_name<T>(v: &Vec<(String, T)>, name: &String) -> (r: Option<usize>)
    ensures
        match r {
            Some(i) => is_first_name(names(v@), name@, i as int),
            None => !names(v@).contains(name@),
        },
{
    let mut i: usize = 0;
    while i < v.len()
        invariant
            i <= v.len(),
            forall|j: int| 0 <= j < i ==> names(v@)[j] != name@,
        decreases v.len() - i,
    {
        if v[i].0 == *name {
            return Some(i);
        }
        i = i + 1;
    }
    proof {
        if names(v@).contains(name@) {
            let j = choose|j: int| 0 <= j < names(v@).len() && names(v@)[j] == name@;
            assert(names(v@)[j] != name@);
        }
    }
    None
}

impl<J> UnverifiedGameConfig<J> {
    /// The names of the skins and of the judges are each in order, as the
    /// keys of the configuration file's tables are.
    pub open spec fn wf(&self) -> bool {
        &&& names_in_order(names(self.skins@))
        &&& names_in_order(names(self.judges@))
    }

    /// Finds the current skin and judge among those listed: the skin is
    /// looked for first.
    pub fn verify(self) -> (r: Result<GameConfig<J>, GameConfigVerifyError>)
        requires
            self.wf(),
        ensures
            match r {
                Ok(g) => {
                    &&& g.wf()
                    &&& forall|j: int|
                        0 <= j < g.skins.len() && #[trigger] names(g.skins@)[j] == self.current_skin@
                            ==> j == g.skin_index()
                    &&& forall|j: int|
                        0 <= j < g.judges.len() && #[trigger] names(g.judges@)[j] == self.current_judge@
                            ==> j == g.judge_index()
                    &&& g.skins@ == self.skins@
                    &&& g.judges@ == self.judges@
                    &&& g.default_osu_skin_path == self.default_osu_skin_path
                    &&& is_first_name(names(self.skins@), self.current_skin@, g.skin_index())
                    &&& is_first_name(names(self.judges@), self.current_judge@, g.judge_index())
                },
                Err(e) => if !names(self.skins@).contains(self.current_skin@) {
                    e == GameConfigVerifyError::BadCurrentSkin
                } else {
                    e == GameConfigVerifyError::BadCurrentJudge && !names(self.judges@).contains(
                        self.current_judge@,
                    )
                },
            },
    {
        let skin = match find_name(&self.skins, &self.current_skin) {
            Some(i) => i,
            None => return Err(GameConfigVerifyError::BadCurrentSkin),
        };
        let judge = match find_name(&self.judges, &self.current_judge) {
            Some(i) => i,
            None => {
                proof {
                    assert(names(self.skins@)[skin as int] == self.current_skin@);
                }
                return Err(GameConfigVerifyError::BadCurrentJudge);
            },
        };
        proof {
            assert forall|j: int|
                0 <= j < self.skins.len() && #[trigger] names(self.skins@)[j] == self.current_skin@
                    implies j == skin as int by {
                lemma_ordered_names_distinct(names(self.skins@), j, skin as int);
            }
            assert forall|j: int|
                0 <= j < self.judges.len() && #[trigger] names(self.judges@)[j] == self.current_judge@
                    implies j == judge as int by {
                lemma_ordered_names_distinct(names(self.judges@), j, judge as int);
            }
        }
        GameConfig {
            default_osu_skin_path: self.default_osu_skin_path,
            current_skin_index: skin,
            current_judge_index: judge,
            skins: self.skins,
            judges: self.judges,
        }.into_ok()
    }
}

impl<J> GameConfig<J> {
    fn into_ok(self) -> (r: Result<GameConfig<J>, GameConfigVerifyError>)
        ensures
            r == Ok::<GameConfig<J>, GameConfigVerifyError>(self),
    {
        Ok(self)
    }
}

/// The size of the audio buffer: the device's default, or a fixed number of
/// frames.
#[derive(Copy, Clone, Debug, PartialEq, Eq, Structural)]
pub enum BufferSize {
    Default,
    Fixed(usize),
}

/// The buffer size a text in the configuration file names: only `default`.
pub fn buffer_size_from_str(v: &str) -> (r: Option<BufferSize>)
    ensures
        match r {
            Some(b) => v@ == seq!['d', 'e', 'f', 'a', 'u', 'l', 't'] && b == BufferSize::Default,
            None => v@ != seq!['d', 'e', 'f', 'a', 'u', 'l', 't'],
        },
{
    proof {
        reveal_strlit("default");
        assert("default"@ =~= seq!['d', 'e', 'f', 'a', 'u', 'l', 't']);
    }
    if v.to_owned() == "default".to_owned() {
        Some(BufferSize::Default)
    } else {
        None
    }
}

/// The buffer size a signed number in the configuration file names: a
/// positive number of frames.
pub fn buffer_size_from_i64(v: i64) -> (r: Option<BufferSize>)
    ensures
        match r {
            Some(b) => v > 0 && b == BufferSize::Fixed(v as usize),
            None => v <= 0,
        },
{
    if v > 0 {
        Some(BufferSize::Fixed(v as usize))
    } else {
        None
    }
}

/// The buffer size an unsigned number in the configuration file names: a
/// positive number of frames.
pub fn buffer_size_from_u64(v: u64) -> (r: Option<BufferSize>)
    ensures
        match r {
            Some(b) => v > 0 && b == BufferSize::Fixed(v as usize),
            None => v == 0,
        },
{
    if v > 0 {
        Some(BufferSize::Fixed(v as usize))
    } else {
        None
    }
}

/// A key or button bound to a column, as the configuration file describes it.
#[derive(Copy, Clone, Debug, PartialEq, Eq, Structural)]
pub enum InputButton {
    Keyboard { value: u32 },
    Mouse { value: u32 },
    Controller { id: i32, button: u8 },
    /// A direction of a hat switch; `state` is the direction's index.
    Hat { id: i32, state: u8, which: u8 },
}

/// The number of buttons the configuration file lists, when it says so up
/// front: anything but 7 is refused with that number.
pub fn check_bindings_hint(hint: Option<usize>) -> (r: Result<(), usize>)
    ensures
        match hint {
            Some(n) => if n != 7 {
                r == Err::<(), usize>(n)
            } else {
                r is Ok
            },
            None => r is Ok,
        },
{
    match hint {
        Some(n) => if n != 7 {
            Err(n)
        } else {
            Ok(())
        },
        None => Ok(()),
    }
}

/// The key bindings of the 7 columns from the buttons listed: exactly 7 are
/// needed, and the error names how many there were.
pub fn key_bindings_from(buttons: &Vec<InputButton>) -> (r: Result<[InputButton; 7], usize>)
    ensures
        match r {
            Ok(a) => buttons.len() == 7 && a@ == buttons@,
            Err(n) => buttons.len() != 7 && n == buttons.len(),
        },
{
    if buttons.len() != 7 {
        return Err(buttons.len());
    }
    let a = [buttons[0], buttons[1], buttons[2], buttons[3], buttons[4], buttons[5], buttons[6]];
    assert(a@ =~= buttons@);
    Ok(a)
}

} // verus!
