//! The channels of a file: their titles and which of them are shown.

use std::collections::BTreeSet;
use vstd::prelude::*;
use vstd::string::StringExecFns;

verus! {

/// The character of the digit `digit`.
pub open spec fn digit_char(digit: int) -> char {
    if digit == 0 {
        '0'
    } else if digit == 1 {
        '1'
    } else if digit == 2 {
        '2'
    } else if digit == 3 {
        '3'
    } else if digit == 4 {
        '4'
    } else if digit == 5 {
        '5'
    } else if digit == 6 {
        '6'
    } else if digit == 7 {
        '7'
    } else if digit == 8 {
        '8'
    } else {
        '9'
    }
}

/// The decimal digits of `n`.
pub open spec fn decimal(n: nat) -> Seq<char>
    decreases n,
{
    if n < 10 {
        seq![digit_char(n as int)]
    } else {
        decimal(n / 10).push(digit_char(n as int % 10))
    }
}

/// The digit `digit` as a string.
fn digit_str(digit: usize) -> (text: &'static str)
    requires
        digit < 10,
    ensures
        text@ == seq![digit_char(digit as int)],
{
    proof {
        reveal_strlit("0");
        reveal_strlit("1");
        reveal_strlit("2");
        reveal_strlit("3");
        reveal_strlit("4");
        reveal_strlit("5");
        reveal_strlit("6");
        reveal_strlit("7");
        reveal_strlit("8");
        reveal_strlit("9");
    }
    let text = if digit == 0 {
        "0"
    } else if digit == 1 {
        "1"
    } else if digit == 2 {
        "2"
    } else if digit == 3 {
        "3"
    } else if digit == 4 {
        "4"
    } else if digit == 5 {
        "5"
    } else if digit == 6 {
        "6"
    } else if digit == 7 {
        "7"
    } else if digit == 8 {
        "8"
    } else {
        "9"
    };
    assert(text@ =~= seq![digit_char(digit as int)]);
    text
}

/// `n` in decimal digits.
pub fn decimal_string(n: usize) -> (text: String)
    ensures
        text@ == decimal(n as nat),
{
    let mut digits: Vec<usize> = Vec::new();
    let mut rest: usize = n;
    let ghost mut suffix: Seq<char> = Seq::empty();
    while rest >= 10
        invariant
            decimal(n as nat) == decimal(rest as nat) + suffix,
            suffix.len() == digits@.len(),
            forall|i: int| 0 <= i < digits@.len() ==> #[trigger] digits@[i] < 10,
            forall|i: int|
                0 <= i < digits@.len() ==> #[trigger] suffix[i] == digit_char(
                    digits@[digits@.len() - 1 - i] as int,
                ),
        decreases rest,
    {
        let ghost before = suffix;
        proof {
            suffix = seq![digit_char(rest as int % 10)] + suffix;
            assert(decimal(rest as nat) + before =~= decimal(rest as nat / 10) + suffix);
        }
        digits.push(rest % 10);
        rest = rest / 10;
        proof {
            assert forall|i: int| 0 <= i < digits@.len() implies #[trigger] suffix[i]
                == digit_char(digits@[digits@.len() - 1 - i] as int) by {
                if i > 0 {
                    assert(suffix[i] == before[i - 1]);
                }
            }
        }
    }
    let mut text = String::from_str(digit_str(rest));
    let mut k: usize = digits.len();
    while k > 0
        invariant
            k <= digits@.len(),
            suffix.len() == digits@.len(),
            decimal(n as nat) == decimal(rest as nat) + suffix,
            forall|i: int| 0 <= i < digits@.len() ==> #[trigger] digits@[i] < 10,
            forall|i: int|
                0 <= i < digits@.len() ==> #[trigger] suffix[i] == digit_char(
                    digits@[digits@.len() - 1 - i] as int,
                ),
            text@ == decimal(rest as nat) + suffix.take(digits@.len() - k),
        decreases k,
    {
        k -= 1;
        proof {
            let done = digits@.len() - k - 1;
            assert(suffix.take(done + 1) =~= suffix.take(done).push(suffix[done]));
            assert(decimal(rest as nat) + suffix.take(done) + seq![suffix[done]] =~= decimal(
                rest as nat,
            ) + suffix.take(done + 1));
        }
        text.append(digit_str(digits[k]));
    }
    proof {
        assert(suffix.take(digits@.len() as int) =~= suffix);
    }
    text
}

/// The title of channel `idx` among `count` channels: the name of its
/// speaker in the usual layouts, and its number in the others.
pub open spec fn channel_title(count: int, idx: int) -> Seq<char> {
    if count == 1 {
        "Mono"@
    } else if count == 2 {
        if idx == 0 {
            "L"@
        } else {
            "R"@
        }
    } else if count == 3 {
        if idx == 0 {
            "L"@
        } else if idx == 1 {
            "R"@
        } else {
            "LFE"@
        }
    } else if count == 5 {
        if idx == 0 {
            "FL"@
        } else if idx == 1 {
            "FR"@
        } else if idx == 2 {
            "C"@
        } else if idx == 3 {
            "BL"@
        } else {
            "BR"@
        }
    } else if count == 6 {
        if idx == 0 {
            "FL"@
        } else if idx == 1 {
            "FR"@
        } else if idx == 2 {
            "C"@
        } else if idx == 3 {
            "LFE"@
        } else if idx == 4 {
            "BL"@
        } else {
            "BR"@
        }
    } else if count == 7 {
        if idx == 0 {
            "FL"@
        } else if idx == 1 {
            "FR"@
        } else if idx == 2 {
            "C"@
        } else if idx == 3 {
            "LFE"@
        } else if idx == 4 {
            "SL"@
        } else if idx == 5 {
            "SR"@
        } else {
            "BC"@
        }
    } else if count == 8 {
        if idx == 0 {
            "FL"@
        } else if idx == 1 {
            "FR"@
        } else if idx == 2 {
            "C"@
        } else if idx == 3 {
            "LFE"@
        } else if idx == 4 {
            "SL"@
        } else if idx == 5 {
            "SR"@
        } else if idx == 6 {
            "BL"@
        } else {
            "BR"@
        }
    } else {
        "Channel "@ + decimal(idx as nat)
    }
}

/// The titles of the channels and the set of those that are shown.
pub struct ChannelsTabs {
    titles: Vec<String>,
    activated: BTreeSet<usize>,
}

impl ChannelsTabs {
    /// The titles of the channels.
    pub closed spec fn titles(&self) -> Seq<Seq<char>> {
        Seq::new(self.titles@.len(), |i: int| self.titles@[i]@)
    }

    /// The channels that are shown.
    pub closed spec fn shown(&self) -> Set<usize> {
        self.activated@
    }

    /// There is a channel, every channel that is shown exists, and one of
    /// them is shown.
    pub open spec fn wf(&self) -> bool {
        &&& self.titles().len() > 0
        &&& self.shown().finite()
        &&& self.shown().len() > 0
        &&& forall|idx: usize| self.shown().contains(idx) ==> idx < self.titles().len()
    }

    /// The title of channel `idx` among `count` channels.
    fn title(count: usize, idx: usize) -> (title: String)
        requires
            idx < count,
        ensures
            title@ == channel_title(count as int, idx as int),
    {
        if count == 1 {
            String::from_str("Mono")
        } else if count == 2 {
            String::from_str(
                if idx == 0 {
                    "L"
                } else {
                    "R"
                },
            )
        } else if count == 3 {
            String::from_str(
                if idx == 0 {
                    "L"
                } else if idx == 1 {
                    "R"
                } else {
                    "LFE"
                },
            )
        } else if count == 5 {
            String::from_str(
                if idx == 0 {
                    "FL"
                } else if idx == 1 {
                    "FR"
                } else if idx == 2 {
                    "C"
                } else if idx == 3 {
                    "BL"
                } else {
                    "BR"
                },
            )
        } else if count == 6 {
            String::from_str(
                if idx == 0 {
                    "FL"
                } else if idx == 1 {
                    "FR"
                } else if idx == 2 {
                    "C"
                } else if idx == 3 {
                    "LFE"
                } else if idx == 4 {
                    "BL"
                } else {
                    "BR"
                },
            )
        } else if count == 7 {
            String::from_str(
                if idx == 0 {
                    "FL"
                } else if idx == 1 {
                    "FR"
                } else if idx == 2 {
                    "C"
                } else if idx == 3 {
                    "LFE"
                } else if idx == 4 {
                    "SL"
                } else if idx == 5 {
                    "SR"
                } else {
                    "BC"
                },
            )
        } else if count == 8 {
            String::from_str(
                if idx == 0 {
                    "FL"
                } else if idx == 1 {
                    "FR"
                } else if idx == 2 {
                    "C"
                } else if idx == 3 {
                    "LFE"
                } else if idx == 4 {
                    "SL"
                } else if idx == 5 {
                    "SR"
                } else if idx == 6 {
                    "BL"
                } else {
                    "BR"
                },
            )
        } else {
            let mut title = String::from_str("Channel ");
            let number = decimal_string(idx);
            title.append(number.as_str());
            title
        }
    }

    /// The titles of `count` channels.
    fn get_channels_titles(count: usize) -> (titles: Vec<String>)
        requires
            count > 0,
        ensures
            titles@.len() == count,
            forall|idx: int|
                0 <= idx < count ==> (#[trigger] titles@[idx])@ == channel_title(count as int, idx),
    {
        let mut titles: Vec<String> = Vec::new();
        let mut idx: usize = 0;
        while idx < count
            invariant
                idx <= count,
                titles@.len() == idx,
                forall|k: int|
                    0 <= k < idx ==> (#[trigger] titles@[k])@ == channel_title(count as int, k),
            decreases count - idx,
        {
            titles.push(Self::title(count, idx));
            idx += 1;
        }
        titles
    }

    /// The tabs of `count` channels, all of them shown.
    pub fn new(count: usize) -> (tabs: Self)
        requires
            count > 0,
        ensures
            tabs.wf(),
            tabs.titles().len() == count,
            forall|idx: int|
                0 <= idx < count ==> #[trigger] tabs.titles()[idx] == channel_title(
                    count as int,
                    idx,
                ),
            forall|idx: usize| tabs.shown().contains(idx) <==> idx < count,
    {
        broadcast use vstd::std_specs::btree::group_btree_axioms;

        let mut set: BTreeSet<usize> = BTreeSet::new();
        let mut idx: usize = 0;
        while idx < count
            invariant
                idx <= count,
                set@.finite(),
                forall|k: usize| set@.contains(k) <==> k < idx,
                set@.len() == idx,
            decreases count - idx,
        {
            set.insert(idx);
            idx += 1;
        }
        Self { titles: Self::get_channels_titles(count), activated: set }
    }

    /// The number of channels.
    pub fn count(&self) -> (count: usize)
        ensures
            count == self.titles().len(),
    {
        self.titles.len()
    }

    /// The channels that are shown, in order, each with its title.
    pub fn activated(&self) -> (channels: Vec<(usize, &str)>)
        requires
            self.wf(),
        ensures
            forall|j: int|
                0 <= j < channels@.len() ==> self.shown().contains((#[trigger] channels@[j]).0)
                    && channels@[j].1@ == self.titles()[channels@[j].0 as int],
            forall|j: int, k: int|
                0 <= j < k < channels@.len() ==> (#[trigger] channels@[j]).0 < (
                #[trigger] channels@[k]).0,
            forall|idx: usize|
                self.shown().contains(idx) ==> exists|j: int|
                    0 <= j < channels@.len() && (#[trigger] channels@[j]).0 == idx,
    {
        broadcast use vstd::std_specs::btree::group_btree_axioms;

        let mut channels: Vec<(usize, &str)> = Vec::new();
        let mut idx: usize = 0;
        while idx < self.titles.len()
            invariant
                idx <= self.titles@.len(),
                self.wf(),
                forall|j: int|
                    0 <= j < channels@.len() ==> self.shown().contains((#[trigger] channels@[j]).0)
                        && channels@[j].0 < idx && channels@[j].1@ == self.titles()[channels@[j].0 as int],
                forall|j: int, k: int|
                    0 <= j < k < channels@.len() ==> (#[trigger] channels@[j]).0 < (
                    #[trigger] channels@[k]).0,
                forall|shown: usize|
                    self.shown().contains(shown) && shown < idx ==> exists|j: int|
                        0 <= j < channels@.len() && (#[trigger] channels@[j]).0 == shown,
            decreases self.titles@.len() - idx,
        {
            if self.activated.contains(&idx) {
                let ghost before = channels@;
                channels.push((idx, self.titles[idx].as_str()));
                proof {
                    assert forall|shown: usize|
                        self.shown().contains(shown) && shown < idx + 1 implies exists|j: int|
                        0 <= j < channels@.len() && (#[trigger] channels@[j]).0 == shown by {
                        if shown < idx {
                            let j = choose|j: int|
                                0 <= j < before.len() && (#[trigger] before[j]).0 == shown;
                            assert(channels@[j].0 == shown);
                        } else {
                            assert(channels@[before.len() as int].0 == shown);
                        }
                    }
                }
            }
            idx += 1;
        }
        channels
    }

    /// For each channel, whether it is shown, and its title.
    pub fn states(&self) -> (states: Vec<(bool, &str)>)
        ensures
            states@.len() == self.titles().len(),
            forall|idx: usize|
                idx < states@.len() ==> (#[trigger] states@[idx as int]).0 == self.shown().contains(
                    idx,
                ) && states@[idx as int].1@ == self.titles()[idx as int],
    {
        broadcast use vstd::std_specs::btree::group_btree_axioms;

        let mut states: Vec<(bool, &str)> = Vec::new();
        let mut idx: usize = 0;
        while idx < self.titles.len()
            invariant
                idx <= self.titles@.len(),
                states@.len() == idx,
                forall|k: usize|
                    k < idx ==> (#[trigger] states@[k as int]).0 == self.shown().contains(k)
                        && states@[k as int].1@ == self.titles()[k as int],
            decreases self.titles@.len() - idx,
        {
            let title = self.titles[idx].as_str();
            states.push((self.activated.contains(&idx), title));
            idx += 1;
        }
        states
    }

    /// Hides channel `idx` if it is shown, unless it is the only one that
    /// is, and shows it if it is hidden. A channel that does not exist
    /// changes nothing.
    pub fn update(&mut self, idx: usize)
        requires
            old(self).wf(),
        ensures
            final(self).wf(),
            final(self).titles() == old(self).titles(),
            final(self).shown() == if idx >= old(self).titles().len() {
                old(self).shown()
            } else if !old(self).shown().contains(idx) {
                old(self).shown().insert(idx)
            } else if old(self).shown().len() > 1 {
                old(self).shown().remove(idx)
            } else {
                old(self).shown()
            },
    {
        broadcast use vstd::std_specs::btree::group_btree_axioms;

        if idx < self.titles.len() {
            if self.activated.contains(&idx) {
                if self.activated.len() > 1 {
                    self.activated.remove(&idx);
                }
            } else {
                self.activated.insert(idx);
            }
        }
    }

    /// Shows every channel.
    pub fn reset(&mut self)
        requires
            old(self).wf(),
        ensures
            final(self).wf(),
            final(self).titles() == old(self).titles(),
            forall|idx: usize| final(self).shown().contains(idx) <==> idx < old(self).titles().len(),
    {
        broadcast use vstd::std_specs::btree::group_btree_axioms;

        let count: usize = self.titles.len();
        let mut idx: usize = 0;
        while idx < count
            invariant
                idx <= count,
                count == self.titles@.len(),
                self.titles == old(self).titles,
                self.wf(),
                forall|k: usize| k < idx ==> self.shown().contains(k),
            decreases count - idx,
        {
            self.activated.insert(idx);
            idx += 1;
        }
    }
}

} // verus!
