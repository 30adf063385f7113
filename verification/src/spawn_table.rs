use vstd::prelude::*;

verus! {

/// One line of a spawn table: what to spawn, and how likely it is.
pub struct RandomEntry {
    pub name: String,
    pub weight: i32,
}

/// A weighted table of things to spawn.
pub struct RandomTable {
    pub entries: Vec<RandomEntry>,
    pub total_weight: i32,
}

/// Calls `rltk::RandomNumberGenerator::roll_dice`, which adds up `n` dice that
/// each show a number from 1 to `die_type`.
#[verifier::external_body]
pub(crate) fn roll_dice(rng: &mut rltk::RandomNumberGenerator, n: i32, die_type: i32) -> (sum: i32)
    requires
        0 <= n,
        1 <= die_type < i32::MAX,
        n * die_type <= i32::MAX,
    ensures
        n <= sum <= n * die_type,
{
    rng.roll_dice(n, die_type)
}

/// The lines of a table as pairs of name and weight.
pub open spec fn lines(entries: Seq<RandomEntry>) -> Seq<(Seq<char>, int)> {
    Seq::new(entries.len(), |i: int| (entries[i].name@, entries[i].weight as int))
}

/// What the roll `roll` picks from `lines`. The lines are walked in order and
/// each takes its weight off the roll; the first line that the rest of the roll
/// falls short of is picked. A roll that is or becomes zero picks `"None"`.
pub open spec fn picked(lines: Seq<(Seq<char>, int)>, roll: int) -> Seq<char>
    decreases lines.len(),
{
    if roll <= 0 || lines.len() == 0 {
        "None"@
    } else if roll < lines[0].1 {
        lines[0].0
    } else {
        picked(lines.drop_first(), roll - lines[0].1)
    }
}

impl View for RandomTable {
    type V = Seq<(Seq<char>, int)>;

    open spec fn view(&self) -> Seq<(Seq<char>, int)> {
        lines(self.entries@)
    }
}

impl RandomTable {
    /// An empty table.
    pub fn new() -> (t: RandomTable)
        ensures
            t@ == Seq::<(Seq<char>, int)>::empty(),
            t.total_weight == 0,
    {
        let t = RandomTable { entries: Vec::new(), total_weight: 0 };
        assert(t@ =~= Seq::<(Seq<char>, int)>::empty());
        t
    }

    /// The table with one more line, unless `weight` is not positive: then the
    /// table is returned as it is.
    pub fn add(self, name: &str, weight: i32) -> (t: RandomTable)
        requires
            self.total_weight + weight <= i32::MAX,
        ensures
            weight > 0 ==> t@ == self@.push((name@, weight as int)) && t.total_weight
                == self.total_weight + weight,
            weight <= 0 ==> t@ == self@ && t.total_weight == self.total_weight,
    {
        let mut t = self;
        if weight > 0 {
            let ghost before = t@;
            t.total_weight = t.total_weight + weight;
            t.entries.push(RandomEntry { name: String::from_str(name), weight });
            assert(t@ =~= before.push((name@, weight as int)));
        }
        t
    }

    /// What the roll `roll` picks from the table.
    pub fn pick(&self, roll: i32) -> (name: String)
        ensures
            name@ == picked(self@, roll as int),
    {
        let mut rest: i128 = roll as i128;
        let mut index: usize = 0;
        assert(self@.skip(0) =~= self@);
        while rest > 0 && index < self.entries.len()
            invariant
                index <= self.entries@.len(),
                -0x8000_0000 * (index + 1) <= rest <= 0x8000_0000 * (index + 1),
                picked(self@, roll as int) == picked(self@.skip(index as int), rest as int),
            decreases self.entries@.len() - index,
        {
            proof {
                let tail = self@.skip(index as int);
                assert(tail[0] == self@[index as int]);
                assert(tail.drop_first() =~= self@.skip(index + 1));
            }
            if rest < self.entries[index].weight as i128 {
                return self.entries[index].name.clone();
            }
            rest = rest - self.entries[index].weight as i128;
            index += 1;
        }
        String::from_str("None")
    }

    /// Rolls on the table: a die with as many sides as the total weight picks
    /// the line. A table without weight gives `"None"`.
    pub fn roll(&self, rng: &mut rltk::RandomNumberGenerator) -> (name: String)
        requires
            self.total_weight < i32::MAX,
        ensures
            self.total_weight <= 0 ==> name@ == "None"@,
            self.total_weight > 0 ==> exists|r: int|
                0 <= r < self.total_weight && name@ == #[trigger] picked(self@, r),
    {
        if self.total_weight <= 0 {
            return String::from_str("None");
        }
        let r = roll_dice(rng, 1, self.total_weight) - 1;
        self.pick(r)
    }
}

} // verus!
