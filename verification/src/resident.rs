//! The residents of the rooms: a name and a prompt number each.

use vstd::prelude::*;
use crate::text::{chars_to_string, decimal, note_file_name, push_decimal};

verus! {

/// A resident: a name and a prompt number.
#[derive(PartialEq, Eq, Hash)]
pub struct Resident {
    pub name: String,
    pub prompt: u8,
}

impl Resident {
    /// A resident named `name` with the prompt number `prompt`.
    pub fn new(name: &str, prompt: u8) -> (r: Resident)
        ensures
            r.name@ == name@,
            r.prompt == prompt,
    {
        Resident { name: name.to_string(), prompt: prompt }
    }

    /// The resident as shown on screen:
    /// `Resident Name: <name>, Prompt: <prompt>`.
    pub fn describe(&self) -> (text: String)
        ensures
            text@ == "Resident Name: "@ + self.name@ + ", Prompt: "@ + decimal(self.prompt as nat),
    {
        let mut text = "Resident Name: ".to_string();
        text.append(self.name.as_str());
        text.append(", Prompt: ");
        let mut digits: Vec<char> = Vec::new();
        push_decimal(&mut digits, self.prompt as u64);
        let ghost head = text@;
        let mut j: usize = 0;
        while j < digits.len()
            invariant
                j <= digits.len(),
                text@ == head + digits@.take(j as int),
            decreases digits.len() - j,
        {
            text.push(digits[j]);
            proof {
                assert(digits@.take(j + 1) == digits@.take(j as int).push(digits@[j as int]));
            }
            j = j + 1;
        }
        proof {
            assert(digits@.take(digits.len() as int) == digits@);
            assert(digits@ == Seq::<char>::empty() + decimal(self.prompt as nat));
        }
        text
    }
}

/// The residents that the rooms start with, each with the room's number:
/// for rooms 1 to 11, a resident named after the room's note file, with the
/// prompt number 0.
pub fn initial_roster() -> (roster: Vec<(Resident, u8)>)
    ensures
        roster@.len() == 11,
        forall|k: int|
            0 <= k < 11 ==> {
                &&& (#[trigger] roster@[k]).0.name@ == decimal((k + 1) as nat) + seq![
                    '.',
                    't',
                    'x',
                    't',
                ]
                &&& roster@[k].0.prompt == 0
                &&& roster@[k].1 == k + 1
            },
{
    let mut roster: Vec<(Resident, u8)> = Vec::new();
    let mut room: u8 = 1;
    while room <= 11
        invariant
            1 <= room <= 12,
            roster@.len() == room - 1,
            forall|k: int|
                0 <= k < room - 1 ==> {
                    &&& (#[trigger] roster@[k]).0.name@ == decimal((k + 1) as nat) + seq![
                        '.',
                        't',
                        'x',
                        't',
                    ]
                    &&& roster@[k].0.prompt == 0
                    &&& roster@[k].1 == k + 1
                },
        decreases 12 - room,
    {
        let name = chars_to_string(&note_file_name(room as u64));
        roster.push((Resident { name, prompt: 0 }, room));
        room = room + 1;
    }
    roster
}

} // verus!
