use vstd::prelude::*;
use vstd::string::*;
use crate::text::{
    all_digits, chars_of, copy_range, lemma_no_occurrence, lemma_split_first, lemma_split_nonempty,
    lemma_split_single, parse_u32, parse_u32_exec, piece_string, range_is, split, split_ranges,
    trim, trim_range, all_white, unpadded, trim_removes_padding,
};

verus! {

/// Why a player-input message could not be read.
#[derive(Debug, PartialEq, Eq, Structural, Clone, Copy)]
pub enum InputError {
    /// The player id before the first `|` is not a decimal `u32`.
    BadPlayerId,
    /// There is no `|` after the player id.
    MissingInput,
    /// The input part is not wrapped in one ASCII character at each end.
    BadFraming,
    /// The input part has no `,` between the two coordinates.
    MissingCoordinate,
    /// The input part has no attack field after the coordinates.
    MissingAttack,
    /// The attack field is not a decimal `u32`.
    BadAttack,
}

/// A player-input message `id|(x,y,attack)`: the movement coordinates are
/// handed on as written, the attack flag is `true` exactly for the value 1.
#[derive(Debug)]
pub struct InputMessage {
    pub player_id: u32,
    pub mov_x: String,
    pub mov_y: String,
    pub attack: bool,
}

/// Whether `c` is an ASCII character (one byte in UTF-8).
pub open spec fn is_ascii_char(c: char) -> bool {
    (c as u32) < 128
}

/// `s` without its first and last byte, defined when both are whole ASCII characters.
pub open spec fn strip_ends(s: Seq<char>) -> Option<Seq<char>> {
    if s.len() >= 2 && is_ascii_char(s[0]) && is_ascii_char(s.last()) {
        Some(s.subrange(1, s.len() - 1))
    } else {
        None
    }
}

/// What a player-input message `id|(x,y,attack)` carries: player id, the two
/// coordinate texts and the attack flag, or the first thing wrong with it.
pub open spec fn input_message(data: Seq<char>) -> Result<(u32, Seq<char>, Seq<char>, bool), InputError> {
    let parts = split(data, seq!['|']);
    match parse_u32(parts[0]) {
        None => Err(InputError::BadPlayerId),
        Some(id) => if parts.len() < 2 {
            Err(InputError::MissingInput)
        } else {
            match strip_ends(parts[1]) {
                None => Err(InputError::BadFraming),
                Some(inner) => {
                    let fields = split(inner, seq![',']);
                    if fields.len() < 2 {
                        Err(InputError::MissingCoordinate)
                    } else if fields.len() < 3 {
                        Err(InputError::MissingAttack)
                    } else {
                        match parse_u32(fields[2]) {
                            None => Err(InputError::BadAttack),
                            Some(a) => Ok((id, fields[0], fields[1], a == 1)),
                        }
                    }
                },
            }
        },
    }
}

/// Reads a player-input message such as `7|(0.5,-1,1)`.
pub fn parse_player_input(data: &str) -> (r: Result<InputMessage, InputError>)
    ensures
        r matches Ok(m) ==> input_message(data@) == Ok::<_, InputError>(
            (m.player_id, m.mov_x@, m.mov_y@, m.attack),
        ),
        r matches Err(e) ==> input_message(data@) == Err::<(u32, Seq<char>, Seq<char>, bool), _>(e),
{
    let s = chars_of(data);
    let bar = vec!['|'];
    assert(bar@ =~= seq!['|']);
    let parts = split_ranges(&s, &bar);
    proof {
        lemma_split_nonempty(s@, bar@);
    }
    let (id_from, id_to) = parts[0];
    let player_id = match parse_u32_exec(&s, id_from, id_to) {
        Some(id) => id,
        None => return Err(InputError::BadPlayerId),
    };
    if parts.len() < 2 {
        return Err(InputError::MissingInput);
    }
    let (from, to) = parts[1];
    if !(to - from >= 2 && (s[from] as u32) < 128 && (s[to - 1] as u32) < 128) {
        return Err(InputError::BadFraming);
    }
    let inner = copy_range(&s, from + 1, to - 1);
    let inner_text = data.substring_char(from + 1, to - 1);
    assert(s@.subrange(from as int, to as int).subrange(1, to - from - 1) =~= inner@);
    let comma = vec![','];
    assert(comma@ =~= seq![',']);
    let fields = split_ranges(&inner, &comma);
    if fields.len() < 2 {
        return Err(InputError::MissingCoordinate);
    }
    if fields.len() < 3 {
        return Err(InputError::MissingAttack);
    }
    let (a_from, a_to) = fields[2];
    let attack = match parse_u32_exec(&inner, a_from, a_to) {
        Some(a) => a == 1,
        None => return Err(InputError::BadAttack),
    };
    let mov_x = piece_string(inner_text, &inner, &fields, 0);
    let mov_y = piece_string(inner_text, &inner, &fields, 1);
    Ok(InputMessage { player_id, mov_x, mov_y, attack })
}

/// Whether the character `c` does not occur in `s`.
pub open spec fn free_of(s: Seq<char>, c: char) -> bool {
    forall|i: int| 0 <= i < s.len() ==> s[i] != c
}

/// The player-input message `id|(x,y,attack)` built from its field texts.
pub open spec fn input_text(
    id_text: Seq<char>,
    x: Seq<char>,
    y: Seq<char>,
    attack_text: Seq<char>,
) -> Seq<char> {
    id_text + seq!['|', '('] + x + seq![','] + y + seq![','] + attack_text + seq![')']
}

/// A numeral that `parse_u32` accepts holds only digits and an optional leading `+`.
proof fn lemma_numeral_chars(s: Seq<char>, c: char)
    requires
        parse_u32(s) is Some,
        c == '|' || c == ',',
    ensures
        free_of(s, c),
{
    let digits = if s.len() > 0 && s[0] == '+' {
        s.drop_first()
    } else {
        s
    };
    assert(all_digits(digits));
    assert forall|i: int| 0 <= i < s.len() implies s[i] != c by {
        if s.len() > 0 && s[0] == '+' {
            if i > 0 {
                assert(s[i] == digits[i - 1]);
            }
        } else {
            assert(s[i] == digits[i]);
        }
    }
}

/// A player-input message `id|(x,y,attack)` whose numerals parse and whose
/// coordinate texts hold no `|` and no `,` is read back field by field, the
/// attack flag being set exactly when the attack value is 1.
pub proof fn input_round_trip(
    id_text: Seq<char>,
    x: Seq<char>,
    y: Seq<char>,
    attack_text: Seq<char>,
    id: u32,
    attack: u32,
)
    requires
        parse_u32(id_text) == Some(id),
        parse_u32(attack_text) == Some(attack),
        free_of(x, '|'),
        free_of(x, ','),
        free_of(y, '|'),
        free_of(y, ','),
    ensures
        input_message(input_text(id_text, x, y, attack_text)) == Ok::<_, InputError>(
            (id, x, y, attack == 1),
        ),
{
    lemma_numeral_chars(id_text, '|');
    lemma_numeral_chars(attack_text, '|');
    lemma_numeral_chars(attack_text, ',');
    let bar = seq!['|'];
    let comma = seq![','];
    let inner = x + comma + y + comma + attack_text;
    let rest = seq!['('] + inner + seq![')'];
    let msg = input_text(id_text, x, y, attack_text);
    assert(msg =~= id_text + bar + rest);
    assert forall|i: int| 0 <= i < rest.len() implies rest[i] != bar[0] by {
        if 1 <= i < rest.len() - 1 {
            assert(rest[i] == inner[i - 1]);
            let j = i - 1;
            if j < x.len() {
                assert(inner[j] == x[j]);
            } else if j == x.len() {
            } else if j < x.len() + 1 + y.len() {
                assert(inner[j] == y[j - x.len() - 1]);
            } else if j == x.len() + 1 + y.len() {
            } else {
                assert(inner[j] == attack_text[j - x.len() - 2 - y.len()]);
            }
        }
    }
    lemma_split_first(id_text, bar, rest);
    lemma_no_occurrence(rest, bar);
    lemma_split_single(rest, bar);
    let parts = split(msg, bar);
    assert(parts =~= seq![id_text, rest]);
    assert(rest.subrange(1, rest.len() - 1) =~= inner);
    assert(inner =~= x + comma + (y + comma + attack_text));
    lemma_split_first(x, comma, y + comma + attack_text);
    lemma_split_first(y, comma, attack_text);
    lemma_no_occurrence(attack_text, comma);
    lemma_split_single(attack_text, comma);
    assert(split(inner, comma) =~= seq![x, y, attack_text]);
}

/// Why a message from a phone (the `id|x:y|attack` protocol) could not be read.
#[derive(Debug, PartialEq, Eq, Structural, Clone, Copy)]
pub enum ClientMessageError {
    /// There is no `|`-separated movement part.
    MissingMovement,
    /// There is no `|`-separated attack part.
    MissingAttack,
    /// The movement part has fewer than two `:`-separated coordinates.
    TooFewCoordinates,
}

/// A message from a phone: a keep-alive, or the movement coordinates (as
/// written) with the attack flag.
#[derive(Debug)]
pub enum ClientMessage {
    Ping,
    Input { movement: Vec<String>, attack: bool },
}

/// The keep-alive message `ping`.
pub open spec fn ping_word() -> Seq<char> {
    seq!['p', 'i', 'n', 'g']
}

/// What a non-`ping` phone message `id|x:y|attack` carries once trimmed: all
/// the `:`-separated coordinate texts and whether the attack part is `1`.
pub open spec fn client_input(text: Seq<char>) -> Result<(Seq<Seq<char>>, bool), ClientMessageError> {
    let parts = split(trim(text), seq!['|']);
    if parts.len() < 2 {
        Err(ClientMessageError::MissingMovement)
    } else if parts.len() < 3 {
        Err(ClientMessageError::MissingAttack)
    } else {
        let movement = split(parts[1], seq![':']);
        if movement.len() < 2 {
            Err(ClientMessageError::TooFewCoordinates)
        } else {
            Ok((movement, parts[2] == seq!['1']))
        }
    }
}

/// The texts of a list of strings.
pub open spec fn texts(v: Seq<String>) -> Seq<Seq<char>> {
    v.map_values(|m: String| m@)
}

/// White space around a phone message does not change what it carries.
pub proof fn padding_is_ignored(before: Seq<char>, text: Seq<char>, after: Seq<char>)
    requires
        all_white(before),
        all_white(after),
        unpadded(text),
    ensures
        client_input(before + text + after) == client_input(text),
{
    trim_removes_padding(before, text, after);
}

/// A space put before or after a phone message that neither starts nor ends
/// with white space does not change what it carries.
pub proof fn spaces_around_are_ignored(text: Seq<char>)
    requires
        unpadded(text),
    ensures
        client_input(text + seq![' ']) == client_input(text),
        client_input(seq![' '] + text) == client_input(text),
{
    let space = seq![' '];
    let none = Seq::<char>::empty();
    assert(all_white(space));
    assert(all_white(none));
    padding_is_ignored(none, text, space);
    assert(none + text + space =~= text + space);
    padding_is_ignored(space, text, none);
    assert(space + text + none =~= space + text);
}

/// Reads a message from a phone.
pub fn parse_client_message(text: &str) -> (r: Result<ClientMessage, ClientMessageError>)
    ensures
        r matches Ok(ClientMessage::Ping) ==> text@ == ping_word(),
        r matches Ok(ClientMessage::Input { movement, attack }) ==> text@ != ping_word()
            && client_input(text@) == Ok::<_, ClientMessageError>((texts(movement@), attack)),
        r matches Err(e) ==> text@ != ping_word() && client_input(text@) == Err::<
            (Seq<Seq<char>>, bool),
            _,
        >(e),
{
    let s = chars_of(text);
    if range_is(&s, 0, s.len(), &vec!['p', 'i', 'n', 'g']) {
        assert(s@.subrange(0, s@.len() as int) =~= s@);
        return Ok(ClientMessage::Ping);
    }
    assert(s@.subrange(0, s@.len() as int) =~= s@);
    let (a, b) = trim_range(&s);
    let t = copy_range(&s, a, b);
    let t_text = text.substring_char(a, b);
    assert(t@ == trim(text@));
    let bar = vec!['|'];
    assert(bar@ =~= seq!['|']);
    let parts = split_ranges(&t, &bar);
    if parts.len() < 2 {
        return Err(ClientMessageError::MissingMovement);
    }
    if parts.len() < 3 {
        return Err(ClientMessageError::MissingAttack);
    }
    let (m_from, m_to) = parts[1];
    let mv = copy_range(&t, m_from, m_to);
    let mv_text = t_text.substring_char(m_from, m_to);
    let colon = vec![':'];
    assert(colon@ =~= seq![':']);
    let coords = split_ranges(&mv, &colon);
    if coords.len() < 2 {
        return Err(ClientMessageError::TooFewCoordinates);
    }
    let (k_from, k_to) = parts[2];
    let one = vec!['1'];
    assert(one@ =~= seq!['1']);
    let attack = range_is(&t, k_from, k_to, &one);
    let mut movement: Vec<String> = Vec::new();
    let mut k: usize = 0;
    while k < coords.len()
        invariant
            k <= coords.len(),
            mv@ == mv_text@,
            coords.len() == split(mv@, colon@).len(),
            forall|j: int| #![trigger coords[j]] 0 <= j < coords.len() ==> coords[j].0 <= coords[j].1 <= mv.len(),
            forall|j: int| #![trigger coords[j]]
                0 <= j < coords.len() ==> mv@.subrange(coords[j].0 as int, coords[j].1 as int) == split(mv@, colon@)[j],
            movement.len() == k,
            forall|j: int| 0 <= j < k ==> #[trigger] movement@[j]@ == split(mv@, colon@)[j],
        decreases coords.len() - k,
    {
        let piece = piece_string(mv_text, &mv, &coords, k);
        movement.push(piece);
        k += 1;
    }
    assert(texts(movement@) =~= split(mv@, colon@));
    Ok(ClientMessage::Input { movement, attack })
}

} // verus!
