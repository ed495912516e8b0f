//! The `sound` plugin: which player plays a sound, and with which arguments.
//! Players are started with an argument list, never a shell.

use crate::number::{signed_dec, signed_decimal};
use crate::settings::{positive_setting, read_positive, read_text, text_setting};
use crate::text::{join2, join3, opt_text, same, texts};
use vstd::prelude::*;

verus! {

pub const PLAYER_ENV: &'static str = "SOUND_PLUGIN_PLAYER";

pub const DEVICE_ENV: &'static str = "SOUND_PLUGIN_DEVICE";

pub const MAX_BYTES_ENV: &'static str = "SOUND_PLUGIN_MAX_BYTES";

pub const DEFAULT_MAX_BYTES: usize = 33_554_432;

/// The operator's policy.
#[derive(Debug, PartialEq, Eq)]
pub struct Config {
    /// Largest source, in bytes.
    pub max_bytes: usize,
    /// The player to use whatever is asked for.
    pub player_override: Option<String>,
    /// The output device where the caller names none.
    pub default_device: Option<String>,
    /// Where inline audio is written to be played.
    pub temp_dir: String,
}

impl Config {
    /// The policy from the values of the `SOUND_PLUGIN_*` settings.
    pub fn from_env(
        max_bytes: &Option<String>,
        player: &Option<String>,
        device: &Option<String>,
        temp_dir: String,
    ) -> (r: Config)
        ensures
            r.max_bytes == positive_setting(
                *max_bytes,
                usize::MAX as nat,
                DEFAULT_MAX_BYTES as nat,
            ),
            opt_text(r.player_override) == text_setting(*player),
            opt_text(r.default_device) == text_setting(*device),
            r.temp_dir == temp_dir,
    {
        let max: u64 = read_positive(max_bytes, usize::MAX as u64, DEFAULT_MAX_BYTES as u64);
        Config {
            max_bytes: max as usize,
            player_override: read_text(player),
            default_device: read_text(device),
            temp_dir,
        }
    }
}

/// A linear volume.
#[derive(Debug, PartialEq, Eq)]
pub struct Volume {
    /// Whether the volume is left as it is.
    pub unity: bool,
    /// The multiplier as it is printed.
    pub text: String,
    /// The multiplier in percent, rounded.
    pub percent: i64,
}

/// A player, and whether it takes a volume and a device.
#[derive(Debug, Clone, Copy, PartialEq, Eq, Structural)]
pub enum Player {
    PwCat,
    Paplay,
    Aplay,
    Ffplay,
}

/// The binary of a player.
pub open spec fn bin_of(p: Player) -> Seq<char> {
    match p {
        Player::PwCat => "pw-cat"@,
        Player::Paplay => "paplay"@,
        Player::Aplay => "aplay"@,
        Player::Ffplay => "ffplay"@,
    }
}

/// Whether a player takes a volume.
pub open spec fn takes_volume(p: Player) -> bool {
    p != Player::Aplay
}

/// Whether a player takes an output device.
pub open spec fn takes_device(p: Player) -> bool {
    p != Player::Ffplay
}

/// The players for a format, best first.
pub open spec fn players_for(wav: bool) -> Seq<Player> {
    if wav {
        seq![Player::PwCat, Player::Paplay, Player::Aplay]
    } else {
        seq![Player::Ffplay]
    }
}

/// Whether a player can do what is asked for.
pub open spec fn can_honor(p: Player, unity: bool, device: bool) -> bool {
    (unity || takes_volume(p)) && (!device || takes_device(p))
}

/// The players for a format that can do what is asked for, best first.
pub open spec fn able_players(wav: bool, unity: bool, device: bool) -> Seq<Player> {
    if wav {
        if unity {
            seq![Player::PwCat, Player::Paplay, Player::Aplay]
        } else {
            seq![Player::PwCat, Player::Paplay]
        }
    } else if device {
        Seq::empty()
    } else {
        seq![Player::Ffplay]
    }
}

/// The able players are exactly those of the format that can do what is asked
/// for, in the same order.
pub proof fn lemma_able_players(wav: bool, unity: bool, device: bool)
    ensures
        able_players(wav, unity, device) == players_for(wav).filter(
            |p: Player| can_honor(p, unity, device),
        ),
{
    reveal_with_fuel(Seq::filter, 4);
}

/// WAV goes to `pw-cat`, then `paplay`, and then, where the volume is left alone, `aplay`;
/// anything else to `ffplay`, unless a device is asked for.
pub proof fn lemma_who_is_tried(wav: bool, unity: bool, device: bool)
    ensures
        wav && unity ==> able_players(wav, unity, device) == seq![
            Player::PwCat,
            Player::Paplay,
            Player::Aplay,
        ],
        wav && !unity ==> able_players(wav, unity, device) == seq![Player::PwCat, Player::Paplay],
        !wav && !device ==> able_players(wav, unity, device) == seq![Player::Ffplay],
        !wav && device ==> able_players(wav, unity, device).len() == 0,
        bin_of(Player::PwCat) == "pw-cat"@,
        bin_of(Player::Paplay) == "paplay"@,
        bin_of(Player::Aplay) == "aplay"@,
        bin_of(Player::Ffplay) == "ffplay"@,
{
}

/// Why no player can do what is asked for.
pub open spec fn conflict(unity: bool, device: bool) -> Seq<char> {
    if !unity && device {
        "no backend supports both volume and device for this format"@
    } else if !unity {
        "no backend supports volume for this format"@
    } else {
        "no backend supports device selection for this format"@
    }
}

/// The complaint that no player can do what is asked for.
pub open spec fn no_player(wav: bool, volume: Volume, device: Option<&str>) -> Seq<char> {
    "ERR_SOUND_PROVIDER_MISSING: "@ + conflict(volume.unity, device is Some) + " (format "@
        + (if wav {
        "wav"@
    } else {
        "non-wav"@
    }) + ", volume "@ + volume.text@ + ", device '"@ + (match device {
        Some(d) => d@,
        None => Seq::empty(),
    }) + "'); pin SOUND_PLUGIN_PLAYER to force one"@
}

/// The binaries to try in turn for a sound.
pub open spec fn chain_of(wav: bool, volume: Volume, device: Option<&str>, pinned: Option<&str>) -> Seq<
    Seq<char>,
> {
    match pinned {
        Some(bin) => seq![bin@],
        None => {
            let able = able_players(wav, volume.unity, device is Some);
            Seq::new(able.len(), |i: int| bin_of(able[i]))
        },
    }
}

/// The binaries to try in turn for a sound: the one that the operator pinned,
/// whatever it can do, or else those that can do what is asked for. Whether they
/// are installed is not looked at.
pub fn player_chain(
    format_is_wav: bool,
    volume: &Volume,
    device: Option<&str>,
    override_bin: Option<&str>,
) -> (r: Result<Vec<String>, String>)
    ensures
        match r {
            Ok(chain) => texts(chain@) == chain_of(format_is_wav, *volume, device, override_bin)
                && chain@.len() > 0,
            Err(e) => override_bin is None && able_players(
                format_is_wav,
                volume.unity,
                device is Some,
            ).len() == 0 && e@ == no_player(format_is_wav, *volume, device),
        },
        override_bin matches Some(bin) ==> r is Ok && r->Ok_0@.len() == 1 && r->Ok_0@[0]@ == bin@,
        override_bin is None ==> (r is Err <==> !format_is_wav && device is Some),
        override_bin is None && format_is_wav ==> r is Ok && r->Ok_0@[0]@ == "pw-cat"@
            && r->Ok_0@[1]@ == "paplay"@ && (r->Ok_0@.len() == 3 <==> volume.unity) && (
        volume.unity ==> r->Ok_0@[2]@ == "aplay"@),
        override_bin is None && !format_is_wav && device is None ==> r is Ok && r->Ok_0@.len() == 1
            && r->Ok_0@[0]@ == "ffplay"@,
{
    let mut chain: Vec<String> = Vec::new();
    if let Some(bin) = override_bin {
        chain.push(bin.to_owned());
        return Ok(chain);
    }
    if format_is_wav {
        chain.push("pw-cat".to_owned());
        chain.push("paplay".to_owned());
        if volume.unity {
            chain.push("aplay".to_owned());
        }
        return Ok(chain);
    }
    match device {
        None => {
            chain.push("ffplay".to_owned());
            Ok(chain)
        },
        Some(d) => {
            let why = if !volume.unity {
                "no backend supports both volume and device for this format"
            } else {
                "no backend supports device selection for this format"
            };
            let mut e = join3("ERR_SOUND_PROVIDER_MISSING: ", why, " (format ");
            e.append("non-wav");
            e.append(", volume ");
            e.append(volume.text.as_str());
            e.append(", device '");
            e.append(d);
            e.append("'); pin SOUND_PLUGIN_PLAYER to force one");
            Err(e)
        },
    }
}

/// A percentage within what `ffplay` takes.
pub open spec fn clamped(percent: int) -> int {
    if percent < 0 {
        0
    } else if percent > 1000 {
        1000
    } else {
        percent
    }
}

/// The arguments for a player. The file always comes last; a player that is not
/// known gets nothing else.
pub open spec fn args_of(
    player: Seq<char>,
    file: Seq<char>,
    volume: Volume,
    device: Option<&str>,
) -> Seq<Seq<char>> {
    if player == "pw-cat"@ {
        seq!["--playback"@, "--volume="@ + volume.text@] + (match device {
            Some(d) => seq!["--target="@ + d@],
            None => Seq::empty(),
        }) + seq![file]
    } else if player == "paplay"@ {
        seq!["--volume="@ + volume.text@] + (match device {
            Some(d) => seq!["--device="@ + d@],
            None => Seq::empty(),
        }) + seq![file]
    } else if player == "aplay"@ {
        seq!["-q"@] + (match device {
            Some(d) => seq!["-D"@, d@],
            None => Seq::empty(),
        }) + seq![file]
    } else if player == "ffplay"@ {
        seq![
            "-nodisp"@,
            "-autoexit"@,
            "-loglevel"@,
            "error"@,
            "-volume"@,
            signed_decimal(clamped(volume.percent as int)),
            file,
        ]
    } else {
        seq![file]
    }
}

/// The arguments for a player.
pub fn build_args(player: &str, file: &str, volume: &Volume, device: Option<&str>) -> (r: Vec<
    String,
>)
    ensures
        texts(r@) == args_of(player@, file@, *volume, device),
{
    let mut args: Vec<String> = Vec::new();
    if same(player, "pw-cat") {
        args.push("--playback".to_owned());
        args.push(join2("--volume=", volume.text.as_str()));
        if let Some(d) = device {
            args.push(join2("--target=", d));
        }
    } else if same(player, "paplay") {
        args.push(join2("--volume=", volume.text.as_str()));
        if let Some(d) = device {
            args.push(join2("--device=", d));
        }
    } else if same(player, "aplay") {
        args.push("-q".to_owned());
        if let Some(d) = device {
            args.push("-D".to_owned());
            args.push(d.to_owned());
        }
    } else if same(player, "ffplay") {
        let percent: i64 = if volume.percent < 0 {
            0
        } else if volume.percent > 1000 {
            1000
        } else {
            volume.percent
        };
        args.push("-nodisp".to_owned());
        args.push("-autoexit".to_owned());
        args.push("-loglevel".to_owned());
        args.push("error".to_owned());
        args.push("-volume".to_owned());
        args.push(signed_dec(percent));
    }
    args.push(file.to_owned());
    args
}

/// Each player is told the volume and the device in its own words: `pw-cat` and `paplay`
/// both, `aplay` the device alone, and `ffplay` the volume alone, from 0 to 1000
/// percent. An unknown player gets the file and nothing else.
pub proof fn lemma_what_players_are_told(
    player: Seq<char>,
    file: Seq<char>,
    volume: Volume,
    device: Option<&str>,
)
    ensures
        ({
            let args = args_of(player, file, volume, device);
            &&& player == "pw-cat"@ ==> args[0] == "--playback"@ && args[1] == "--volume="@
                + volume.text@ && (device is Some ==> args.len() == 4 && args[2] == "--target="@
                + device->0@) && (device is None ==> args.len() == 3)
            &&& player == "paplay"@ ==> args[0] == "--volume="@ + volume.text@ && (device is Some
                ==> args.len() == 3 && args[1] == "--device="@ + device->0@) && (device is None
                ==> args.len() == 2)
            &&& player == "aplay"@ ==> args[0] == "-q"@ && (device is Some ==> args.len() == 4
                && args[1] == "-D"@ && args[2] == device->0@) && (device is None ==> args.len()
                == 2)
            &&& player == "ffplay"@ ==> args.len() == 7 && args[0] == "-nodisp"@ && args[1]
                == "-autoexit"@ && args[2] == "-loglevel"@ && args[3] == "error"@ && args[4]
                == "-volume"@ && (0 <= volume.percent <= 1000 ==> args[5] == signed_decimal(
                volume.percent as int,
            )) && (volume.percent < 0 ==> args[5] == signed_decimal(0)) && (volume.percent > 1000
                ==> args[5] == signed_decimal(1000))
            &&& player != "pw-cat"@ && player != "paplay"@ && player != "aplay"@ && player
                != "ffplay"@ ==> args == seq![file]
            &&& args.len() > 0 && args.last() == file
        }),
{
    reveal_strlit("pw-cat");
    reveal_strlit("paplay");
    reveal_strlit("aplay");
    reveal_strlit("ffplay");
    assert("pw-cat"@.len() == 6 && "paplay"@.len() == 6 && "aplay"@.len() == 5 && "ffplay"@.len()
        == 6);
    assert("pw-cat"@[1] == 'w' && "paplay"@[1] == 'a' && "ffplay"@[1] == 'f');
}

/// Whatever the player, the file is the last argument.
pub proof fn lemma_file_comes_last(
    player: Seq<char>,
    file: Seq<char>,
    volume: Volume,
    device: Option<&str>,
)
    ensures
        args_of(player, file, volume, device).len() > 0,
        args_of(player, file, volume, device).last() == file,
{
}

/// How starting a player failed.
#[derive(Debug, PartialEq, Eq)]
pub enum SpawnFailure {
    /// The binary is not installed.
    NotFound,
    Other { error: String },
}

/// The complaint about a player that did not start.
pub open spec fn spawn_text(bin: Seq<char>, failure: SpawnFailure) -> Seq<char> {
    match failure {
        SpawnFailure::NotFound => "ERR_SOUND_PROVIDER_MISSING: binary '"@ + bin
            + "' not found on PATH"@,
        SpawnFailure::Other { error } => "ERR_SOUND_SPAWN_FAILED: spawn '"@ + bin + "' failed: "@
            + error@,
    }
}

/// The complaint about a player that did not start.
pub fn spawn_error(bin: &str, failure: SpawnFailure) -> (r: String)
    ensures
        r@ == spawn_text(bin@, failure),
        failure is NotFound ==> r@ == "ERR_SOUND_PROVIDER_MISSING: binary '"@ + bin@
            + "' not found on PATH"@,
        failure matches SpawnFailure::Other { error } ==> r@ == "ERR_SOUND_SPAWN_FAILED: spawn '"@
            + bin@ + "' failed: "@ + error@,
{
    match failure {
        SpawnFailure::NotFound => join3(
            "ERR_SOUND_PROVIDER_MISSING: binary '",
            bin,
            "' not found on PATH",
        ),
        SpawnFailure::Other { error } => {
            let mut e = join3("ERR_SOUND_SPAWN_FAILED: spawn '", bin, "' failed: ");
            e.append(error.as_str());
            e
        },
    }
}

/// What looking after a player found.
#[derive(Debug, Clone, Copy, PartialEq, Eq, Structural)]
pub enum Poll {
    Running,
    /// It is over, with this exit code unless a signal ended it.
    Exited { code: Option<i32> },
    /// It could not be looked after.
    Failed,
}

/// The exit code of a player that is over; one that cannot be looked after
/// counts as over and failed.
pub fn exit_code(poll: Poll) -> (r: Option<i32>)
    ensures
        r == match poll {
            Poll::Running => None,
            Poll::Exited { code } => Some(
                match code {
                    Some(c) => c,
                    None => -1i32,
                },
            ),
            Poll::Failed => Some(-1i32),
        },
{
    match poll {
        Poll::Running => None,
        Poll::Exited { code } => match code {
            Some(c) => Some(c),
            None => Some(-1),
        },
        Poll::Failed => Some(-1),
    }
}

/// The complaint that nobody can play a sound tells what stands in the way and what was
/// asked for.
pub proof fn lemma_why_nobody_plays(wav: bool, volume: Volume, device: Option<&str>)
    ensures
        device is Some && volume.unity && !wav ==> no_player(wav, volume, device)
            == "ERR_SOUND_PROVIDER_MISSING: "@
            + "no backend supports device selection for this format"@ + " (format "@ + "non-wav"@
            + ", volume "@ + volume.text@ + ", device '"@ + device->0@
            + "'); pin SOUND_PLUGIN_PLAYER to force one"@,
        device is Some && !volume.unity && !wav ==> no_player(wav, volume, device)
            == "ERR_SOUND_PROVIDER_MISSING: "@
            + "no backend supports both volume and device for this format"@ + " (format "@
            + "non-wav"@ + ", volume "@ + volume.text@ + ", device '"@ + device->0@
            + "'); pin SOUND_PLUGIN_PLAYER to force one"@,
{
}

} // verus!
