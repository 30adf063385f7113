use vstd::prelude::*;

verus! {

/// The notification sink: user-facing lines, oldest first. The turn logic only
/// appends to it.
#[derive(Debug, PartialEq, Eq)]
pub struct GameLog {
    pub entries: Vec<String>,
}

impl View for GameLog {
    type V = Seq<Seq<char>>;

    open spec fn view(&self) -> Seq<Seq<char>> {
        Seq::new(self.entries@.len(), |i: int| self.entries@[i]@)
    }
}

impl GameLog {
    /// A log without lines.
    pub fn new() -> (log: GameLog)
        ensures
            log@ == Seq::<Seq<char>>::empty(),
    {
        let log = GameLog { entries: Vec::new() };
        assert(log@ =~= Seq::<Seq<char>>::empty());
        log
    }

    /// Appends `line`.
    pub fn push(&mut self, line: String)
        ensures
            final(self)@ == old(self)@.push(line@),
    {
        self.entries.push(line);
        assert(self@ =~= old(self)@.push(line@));
    }

    /// Removes every line.
    pub fn clear(&mut self)
        ensures
            final(self)@ == Seq::<Seq<char>>::empty(),
    {
        self.entries.clear();
        assert(self@ =~= Seq::<Seq<char>>::empty());
    }
}

} // verus!

verus! {

/// The character of the decimal digit `d`.
pub open spec fn digit_char(d: int) -> char {
    if d == 0 {
        '0'
    } else if d == 1 {
        '1'
    } else if d == 2 {
        '2'
    } else if d == 3 {
        '3'
    } else if d == 4 {
        '4'
    } else if d == 5 {
        '5'
    } else if d == 6 {
        '6'
    } else if d == 7 {
        '7'
    } else if d == 8 {
        '8'
    } else {
        '9'
    }
}

/// The decimal digits of `n`, most significant first, without leading zeros.
pub open spec fn digits(n: nat) -> Seq<char>
    decreases n,
{
    if n < 10 {
        seq![digit_char(n as int)]
    } else {
        digits(n / 10).push(digit_char((n % 10) as int))
    }
}

/// `n` in decimal, with a minus sign in front if it is negative.
pub open spec fn decimal(n: int) -> Seq<char> {
    if n < 0 {
        seq!['-'] + digits((-n) as nat)
    } else {
        digits(n as nat)
    }
}

fn digit_str(d: u64) -> (s: &'static str)
    requires
        d < 10,
    ensures
        s@ == seq![digit_char(d as int)],
{
    proof {
        reveal_strlit("0");
        reveal_strlit("1");
        reveal_strlit("2");
        reveal_strlit("3");
        reveal_strlit("4");
        reveal_strlit("5");
        reveal_strlit("6");
        reveal_strlit("7");
        reveal_strlit("8");
        reveal_strlit("9");
    }
    let s = if d == 0 {
        "0"
    } else if d == 1 {
        "1"
    } else if d == 2 {
        "2"
    } else if d == 3 {
        "3"
    } else if d == 4 {
        "4"
    } else if d == 5 {
        "5"
    } else if d == 6 {
        "6"
    } else if d == 7 {
        "7"
    } else if d == 8 {
        "8"
    } else {
        "9"
    };
    assert(s@ =~= seq![digit_char(d as int)]);
    s
}

fn digits_string(n: u64) -> (s: String)
    ensures
        s@ == digits(n as nat),
    decreases n,
{
    if n < 10 {
        String::from_str(digit_str(n))
    } else {
        let head = digits_string(n / 10);
        let tail = digit_str(n % 10);
        let s = head.concat(tail);
        assert(s@ =~= digits(n as nat));
        s
    }
}

/// Writes `n` in decimal.
pub fn decimal_string(n: i32) -> (s: String)
    ensures
        s@ == decimal(n as int),
{
    if n < 0 {
        let m: u64 = (-(n as i64)) as u64;
        proof {
            reveal_strlit("-");
        }
        let body = digits_string(m);
        let s = String::from_str("-").concat(body.as_str());
        assert(s@ =~= decimal(n as int));
        s
    } else {
        digits_string(n as u64)
    }
}

/// The line that reports the player's death.
pub open spec fn dead_line() -> Seq<char> {
    "You are dead"@
}

/// The line that reports the death of something called `name`.
pub open spec fn died_line(name: Seq<char>) -> Seq<char> {
    name + " died in pain!"@
}

/// The line that reports that the player took the item called `item`.
pub open spec fn pickup_line(item: Seq<char>) -> Seq<char> {
    "You picked up the "@ + item
}

/// The line that reports that the player put down the item called `item`.
pub open spec fn drop_line(item: Seq<char>) -> Seq<char> {
    "You drop the "@ + item
}

/// The line that reports a healing of `amount` by the item called `item`.
pub open spec fn heal_line(item: Seq<char>, amount: i32) -> Seq<char> {
    "You drink the "@ + item + ", healing "@ + decimal(amount as int) + " hp."@
}

/// The line that reports that `item` dealt `amount` to `target`.
pub open spec fn damage_line(item: Seq<char>, target: Seq<char>, amount: i32) -> Seq<char> {
    "You use "@ + item + " on "@ + target + ", inflicting "@ + decimal(amount as int)
        + " damage."@
}

/// The line that reports that `item` confused `target`.
pub open spec fn confusion_line(item: Seq<char>, target: Seq<char>) -> Seq<char> {
    "You use "@ + item + " on "@ + target + ", confusiong them."@
}

/// Builds [`dead_line`].
pub fn dead_message() -> (s: String)
    ensures
        s@ == dead_line(),
{
    String::from_str("You are dead")
}

/// Builds [`died_line`].
pub fn died_message(name: &str) -> (s: String)
    ensures
        s@ == died_line(name@),
{
    String::from_str(name).concat(" died in pain!")
}

/// Builds [`pickup_line`].
pub fn pickup_message(item: &str) -> (s: String)
    ensures
        s@ == pickup_line(item@),
{
    String::from_str("You picked up the ").concat(item)
}

/// Builds [`drop_line`].
pub fn drop_message(item: &str) -> (s: String)
    ensures
        s@ == drop_line(item@),
{
    String::from_str("You drop the ").concat(item)
}

/// Builds [`heal_line`].
pub fn heal_message(item: &str, amount: i32) -> (s: String)
    ensures
        s@ == heal_line(item@, amount),
{
    let number = decimal_string(amount);
    String::from_str("You drink the ").concat(item).concat(", healing ").concat(
        number.as_str(),
    ).concat(" hp.")
}

/// Builds [`damage_line`].
pub fn damage_message(item: &str, target: &str, amount: i32) -> (s: String)
    ensures
        s@ == damage_line(item@, target@, amount),
{
    let number = decimal_string(amount);
    String::from_str("You use ").concat(item).concat(" on ").concat(target).concat(
        ", inflicting ",
    ).concat(number.as_str()).concat(" damage.")
}

/// Builds [`confusion_line`].
pub fn confusion_message(item: &str, target: &str) -> (s: String)
    ensures
        s@ == confusion_line(item@, target@),
{
    String::from_str("You use ").concat(item).concat(" on ").concat(target).concat(
        ", confusiong them.",
    )
}

} // verus!

verus! {

/// The line that reports that `attacker` hit `target` for `amount`.
pub open spec fn hit_line(attacker: Seq<char>, target: Seq<char>, amount: i32) -> Seq<char> {
    attacker + " hits "@ + target + ", for "@ + decimal(amount as int) + " hp."@
}

/// The line that reports that `attacker` could not hurt `target`.
pub open spec fn miss_line(attacker: Seq<char>, target: Seq<char>) -> Seq<char> {
    attacker + " is unable to hurt "@ + target
}

/// Builds [`hit_line`].
pub fn hit_message(attacker: &str, target: &str, amount: i32) -> (s: String)
    ensures
        s@ == hit_line(attacker@, target@, amount),
{
    let number = decimal_string(amount);
    String::from_str(attacker).concat(" hits ").concat(target).concat(", for ").concat(
        number.as_str(),
    ).concat(" hp.")
}

/// Builds [`miss_line`].
pub fn miss_message(attacker: &str, target: &str) -> (s: String)
    ensures
        s@ == miss_line(attacker@, target@),
{
    String::from_str(attacker).concat(" is unable to hurt ").concat(target)
}

} // verus!
