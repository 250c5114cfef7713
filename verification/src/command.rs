//! What is to be run: which protocol downloads a video, and how its parts are put together.

use crate::text;
use crate::url;
use vstd::prelude::*;

verus! {

/// How the server is talked to.
#[derive(Debug, Default, Clone, Copy, PartialEq, Eq)]
pub enum Protocol {
    /// As the address suggests.
    #[default]
    Auto,
    /// A clip that is described in JSON.
    Vimeo,
    /// HTTP Live Streaming.
    Hls,
}

/// Why the protocol is not known. `T` is text.
#[derive(Debug, PartialEq, Eq)]
pub enum DetectError<T> {
    /// Why the address is no URL.
    Url(T),
    /// The address suggests none.
    Unknown,
}

/// The protocol that the path of an address suggests.
pub open spec fn suggested(path: Seq<char>) -> Option<Protocol> {
    if text::has_suffix(path, ".json"@) {
        Some(Protocol::Vimeo)
    } else if text::has_suffix(path, ".m3u8"@) {
        Some(Protocol::Hls)
    } else {
        None
    }
}

/// The protocol that the path of an address suggests.
pub fn suggest(path: &str) -> (protocol: Option<Protocol>)
    ensures
        protocol == suggested(path@),
{
    if text::ends_with(path, ".json") {
        Some(Protocol::Vimeo)
    } else if text::ends_with(path, ".m3u8") {
        Some(Protocol::Hls)
    } else {
        None
    }
}

/// The protocol to use for `url`.
pub open spec fn detected(protocol: Protocol, url: Seq<char>) -> Result<
    Protocol,
    DetectError<Seq<char>>,
> {
    if protocol != Protocol::Auto {
        Ok(protocol)
    } else {
        match url::url_parsed(url) {
            Err(cause) => Err(DetectError::Url(cause)),
            Ok(_) => match suggested(url::url_path(url)) {
                Some(protocol) => Ok(protocol),
                None => Err(DetectError::Unknown),
            },
        }
    }
}

/// The view of a protocol or of an error.
pub open spec fn detected_view(protocol: Result<Protocol, DetectError<String>>) -> Result<
    Protocol,
    DetectError<Seq<char>>,
> {
    match protocol {
        Ok(protocol) => Ok(protocol),
        Err(DetectError::Url(cause)) => Err(DetectError::Url(cause@)),
        Err(DetectError::Unknown) => Err(DetectError::Unknown),
    }
}

/// The protocol to use for `url`: the one that is asked for, or the one that the path of
/// the address suggests.
pub fn detect(protocol: Protocol, url: &str) -> (found: Result<Protocol, DetectError<String>>)
    ensures
        detected_view(found) == detected(protocol, url@),
{
    match protocol {
        Protocol::Auto => match url::path(url) {
            Err(cause) => Err(DetectError::Url(cause)),
            Ok(path) => match suggest(path.as_str()) {
                Some(protocol) => Ok(protocol),
                None => Err(DetectError::Unknown),
            },
        },
        protocol => Ok(protocol),
    }
}

/// What follows the last slash of a path.
pub open spec fn last_segment(path: Seq<char>) -> Seq<char> {
    match path.index_of_last('/') {
        Some(at) => path.skip(at + 1),
        None => path,
    }
}

/// A file name with the extension `mp4` in place of its own. A dot at the very start begins
/// no extension. The names that stand for no file are left alone.
pub open spec fn as_mp4(name: Seq<char>) -> Seq<char> {
    if name == ""@ || name == "."@ || name == ".."@ {
        name
    } else {
        match name.index_of_last('.') {
            Some(at) => if at > 0 {
                name.take(at) + ".mp4"@
            } else {
                name + ".mp4"@
            },
            None => name + ".mp4"@,
        }
    }
}

/// The name of the file to write for a video at `path`.
pub fn path_output_name(path: &str) -> (name: String)
    ensures
        name@ == as_mp4(last_segment(path@)),
{
    let len = text::chars_of(path).len();
    let name = match text::last_index(path, '/') {
        Some(at) => {
            assert(path@.subrange(at + 1, path@.len() as int) == path@.skip(at + 1));
            path.substring_char(at + 1, len)
        },
        None => path,
    };
    if text::same(name, "") || text::same(name, ".") || text::same(name, "..") {
        return name.to_owned();
    }
    match text::last_index(name, '.') {
        Some(at) => if at > 0 {
            assert(name@.subrange(0, at as int) == name@.take(at as int));
            name.substring_char(0, at).to_owned().concat(".mp4")
        } else {
            name.to_owned().concat(".mp4")
        },
        None => name.to_owned().concat(".mp4"),
    }
}

/// The name of the file to write for the video at `url`, or why the address is no URL.
/// Nothing, where its path does not start with a slash and so has no segments.
pub fn output_name(url: &str) -> (name: Result<Option<String>, String>)
    ensures
        match (name, url::url_parsed(url@)) {
            (Err(cause), Err(expected)) => cause@ == expected,
            (Ok(name), Ok(_)) => {
                let path = url::url_path(url@);
                match name {
                    Some(name) => path.len() > 0 && path[0] == '/' && name@ == as_mp4(
                        last_segment(path),
                    ),
                    None => path.len() == 0 || path[0] != '/',
                }
            },
            _ => false,
        },
{
    match url::path(url) {
        Err(cause) => Err(cause),
        Ok(path) => {
            let chars = text::chars_of(path.as_str());
            if chars.len() > 0 && chars[0] == '/' {
                Ok(Some(path_output_name(path.as_str())))
            } else {
                Ok(None)
            }
        },
    }
}

/// An argument of the program that puts the parts together. `T` is text.
#[derive(Debug, PartialEq, Eq)]
pub enum Arg<T> {
    /// This text.
    Text(T),
    /// The name of the file with this number.
    File(usize),
    /// The name of the file to write.
    Output,
}

impl View for Arg<String> {
    type V = Arg<Seq<char>>;

    open spec fn view(&self) -> Arg<Seq<char>> {
        match self {
            Arg::Text(text) => Arg::Text(text@),
            Arg::File(at) => Arg::File(*at),
            Arg::Output => Arg::Output,
        }
    }
}

/// The arguments that name the first `n` files.
pub open spec fn input_args(n: nat) -> Seq<Arg<Seq<char>>>
    decreases n,
{
    if n == 0 {
        seq![]
    } else {
        input_args((n - 1) as nat) + seq![Arg::Text("-i"@), Arg::File((n - 1) as usize)]
    }
}

/// The arguments that put `files` files together without encoding them anew, from the
/// position `seek` on, with the index at the beginning if `fast_start` says so.
pub open spec fn command_args(files: nat, seek: Option<Seq<char>>, fast_start: bool) -> Seq<
    Arg<Seq<char>>,
> {
    let seek_args = match seek {
        Some(position) => seq![Arg::Text("-ss"@), Arg::Text(position)],
        None => seq![],
    };
    let start_args = if fast_start {
        seq![Arg::Text("-movflags"@), Arg::Text("faststart"@)]
    } else {
        seq![]
    };
    input_args(files) + seq![Arg::Text("-codec"@), Arg::Text("copy"@)] + seek_args + start_args
        + seq![Arg::Output]
}

/// The views of arguments.
pub open spec fn arg_views(args: Seq<Arg<String>>) -> Seq<Arg<Seq<char>>> {
    args.map_values(|arg: Arg<String>| arg@)
}

/// Adds two arguments that are text.
fn push_option(args: &mut Vec<Arg<String>>, name: &str, value: &str)
    ensures
        arg_views(final(args)@) == arg_views(old(args)@) + seq![Arg::Text(name@), Arg::Text(value@)],
{
    let ghost before = args@;
    args.push(Arg::Text(name.to_owned()));
    args.push(Arg::Text(value.to_owned()));
    assert(arg_views(args@) == arg_views(before) + seq![Arg::Text(name@), Arg::Text(value@)]);
}

/// The arguments of the program that puts `files` files together.
pub fn ffmpeg_args(files: usize, seek: &Option<String>, fast_start: bool) -> (args: Vec<
    Arg<String>,
>)
    ensures
        arg_views(args@) == command_args(files as nat, text::opt_text(*seek), fast_start),
{
    let mut args: Vec<Arg<String>> = Vec::new();
    let mut i: usize = 0;
    assert(arg_views(args@) == input_args(0));
    while i < files
        invariant
            i <= files,
            arg_views(args@) == input_args(i as nat),
        decreases files - i,
    {
        let ghost before = args@;
        args.push(Arg::Text("-i".to_owned()));
        args.push(Arg::File(i));
        assert(arg_views(args@) == arg_views(before) + seq![Arg::Text("-i"@), Arg::File(i)]);
        i = i + 1;
    }
    push_option(&mut args, "-codec", "copy");
    if let Some(position) = seek {
        push_option(&mut args, "-ss", position.as_str());
    }
    if fast_start {
        push_option(&mut args, "-movflags", "faststart");
    }
    let ghost before = args@;
    args.push(Arg::Output);
    assert(arg_views(args@) == arg_views(before) + seq![Arg::Output]);
    assert(arg_views(args@) == command_args(files as nat, text::opt_text(*seek), fast_start));
    args
}

/// The output is the last argument and stands nowhere else, and each file is named once, in
/// its order, behind an option that makes it an input.
pub proof fn law_inputs_come_first_and_the_output_last(
    files: nat,
    seek: Option<Seq<char>>,
    fast_start: bool,
)
    requires
        files <= usize::MAX,
    ensures
        ({
            let args = command_args(files, seek, fast_start);
            &&& args.last() == Arg::<Seq<char>>::Output
            &&& forall|i: int| 0 <= i < args.len() - 1 ==> !(#[trigger] args[i] is Output)
            &&& forall|k: int|
                0 <= k < files ==> args[2 * k] == Arg::Text("-i"@) && #[trigger] args[2 * k + 1]
                    == Arg::<Seq<char>>::File(k as usize)
            &&& forall|i: int|
                2 * files <= i < args.len() ==> !(#[trigger] args[i] is File)
        }),
{
    lemma_input_args(files);
    let args = command_args(files, seek, fast_start);
    let inputs = input_args(files);
    assert forall|i: int| 0 <= i < args.len() - 1 implies !(#[trigger] args[i] is Output) by {
        if i < inputs.len() {
            assert(args[i] == inputs[i]);
        }
    }
    assert forall|k: int| 0 <= k < files implies args[2 * k] == Arg::Text("-i"@)
        && #[trigger] args[2 * k + 1] == Arg::<Seq<char>>::File(k as usize) by {
        assert(args[2 * k] == inputs[2 * k]);
        assert(args[2 * k + 1] == inputs[2 * k + 1]);
    }
}

proof fn lemma_input_args(n: nat)
    requires
        n <= usize::MAX,
    ensures
        input_args(n).len() == 2 * n,
        forall|i: int| 0 <= i < 2 * n ==> !(#[trigger] input_args(n)[i] is Output),
        forall|k: int|
            0 <= k < n ==> input_args(n)[2 * k] == Arg::Text("-i"@) && #[trigger] input_args(
                n,
            )[2 * k + 1] == Arg::<Seq<char>>::File(k as usize),
    decreases n,
{
    if n > 0 {
        lemma_input_args((n - 1) as nat);
        let before = input_args((n - 1) as nat);
        assert forall|k: int| 0 <= k < n implies input_args(n)[2 * k] == Arg::Text("-i"@)
            && #[trigger] input_args(n)[2 * k + 1] == Arg::<Seq<char>>::File(k as usize) by {
            if k < n - 1 {
                assert(input_args(n)[2 * k] == before[2 * k]);
                assert(input_args(n)[2 * k + 1] == before[2 * k + 1]);
            }
        }
        assert forall|i: int| 0 <= i < 2 * n implies !(#[trigger] input_args(n)[i] is Output) by {
            if i < 2 * n - 2 {
                assert(input_args(n)[i] == before[i]);
            }
        }
    }
}

/// The file to write is named as MP4 wherever the path names a file at all, and keeps its
/// name but for the extension.
pub proof fn law_output_is_mp4(name: Seq<char>)
    requires
        name != ""@,
        name != "."@,
        name != ".."@,
    ensures
        text::has_suffix(as_mp4(name), ".mp4"@),
        !name.contains('.') ==> as_mp4(name) == name + ".mp4"@,
        as_mp4(name).len() > ".mp4"@.len(),
{
    reveal_strlit("");
    reveal_strlit(".mp4");
    name.index_of_last_ensures('.');
    assert(name.len() > 0) by {
        if name.len() == 0 {
            assert(name =~= ""@);
        }
    }
    assert(as_mp4(name).skip(as_mp4(name).len() - 4) =~= ".mp4"@);
}

/// A protocol that is asked for is used, whatever the address is.
pub proof fn law_given_protocol_is_used(protocol: Protocol, url: Seq<char>)
    requires
        protocol != Protocol::Auto,
    ensures
        detected(protocol, url) == Ok::<_, DetectError<Seq<char>>>(protocol),
{
}

/// A detected protocol is always one that can be used.
pub proof fn law_detection_decides(protocol: Protocol, url: Seq<char>)
    ensures
        detected(protocol, url) matches Ok(found) ==> found != Protocol::Auto,
{
}

/// The protocol follows from the end of the path alone: `.json` is a clip, `.m3u8` is live
/// streaming, and a path that ends with neither suggests nothing.
pub proof fn law_ending_suggests_the_protocol(start: Seq<char>, path: Seq<char>)
    ensures
        suggested(start + ".json"@) == Some(Protocol::Vimeo),
        suggested(start + ".m3u8"@) == Some(Protocol::Hls),
        suggested(path) is None <==> (forall|s: Seq<char>| path != #[trigger] (s + ".json"@)) && (
        forall|s: Seq<char>| path != #[trigger] (s + ".m3u8"@)),
        suggested(path) != Some(Protocol::Auto),
{
    reveal_strlit(".json");
    reveal_strlit(".m3u8");
    text::law_suffix(path, ".json"@);
    text::law_suffix(path, ".m3u8"@);
    let clip = start + ".json"@;
    let live = start + ".m3u8"@;
    text::law_suffix(clip, ".json"@);
    text::law_suffix(live, ".m3u8"@);
    assert(live.last() == '8');
    text::law_suffix(live, ".json"@);
    if text::has_suffix(live, ".json"@) {
        assert(live.skip(live.len() - 5).last() == 'n');
    }
}

/// Detection looks at the path of the address and at nothing else: it fails where the
/// address is no URL or its path suggests nothing.
pub proof fn law_detection_follows_the_path(url: Seq<char>)
    ensures
        url::url_parsed(url) matches Err(cause) ==> detected(Protocol::Auto, url) == Err::<
            Protocol,
            _,
        >(DetectError::Url(cause)),
        url::url_parsed(url) is Ok && suggested(url::url_path(url)) is None ==> detected(
            Protocol::Auto,
            url,
        ) == Err::<Protocol, DetectError<Seq<char>>>(DetectError::Unknown),
        url::url_parsed(url) is Ok ==> (suggested(url::url_path(url)) matches Some(protocol)
            ==> detected(Protocol::Auto, url) == Ok::<_, DetectError<Seq<char>>>(protocol)),
{
}

/// The name in a path is what stands behind its last slash, whatever stands before it.
pub proof fn law_name_follows_the_last_slash(start: Seq<char>, name: Seq<char>)
    requires
        !name.contains('/'),
    ensures
        last_segment(start + seq!['/'] + name) == name,
        last_segment(name) == name,
{
    let path = start + seq!['/'] + name;
    path.index_of_last_ensures('/');
    name.index_of_last_ensures('/');
    assert(path[start.len() as int] == '/');
    let at = path.index_of_last('/')->0;
    if at > start.len() {
        assert(name[at - start.len() - 1] == '/');
    }
    assert(at == start.len());
    assert(path.skip(at + 1) =~= name);
}

/// An extension is replaced and nothing else is. A name without one, be it that it starts
/// with its only dot, gets one; the names that stand for no file are kept.
pub proof fn law_extension_is_replaced(stem: Seq<char>, extension: Seq<char>, plain: Seq<char>)
    requires
        stem.len() > 0,
        stem + seq!['.'] + extension != ".."@,
        !extension.contains('.'),
        plain.len() > 0,
        !plain.contains('.'),
    ensures
        as_mp4(stem + seq!['.'] + extension) == stem + ".mp4"@,
        as_mp4(plain) == plain + ".mp4"@,
        as_mp4(seq!['.'] + plain) == seq!['.'] + plain + ".mp4"@,
        as_mp4(""@) == ""@,
        as_mp4("."@) == "."@,
        as_mp4(".."@) == ".."@,
{
    reveal_strlit("");
    reveal_strlit(".");
    reveal_strlit("..");
    let name = stem + seq!['.'] + extension;
    name.index_of_last_ensures('.');
    assert(name[stem.len() as int] == '.');
    let at = name.index_of_last('.')->0;
    if at > stem.len() {
        assert(extension[at - stem.len() - 1] == '.');
    }
    assert(name.take(at) =~= stem);
    assert(name.len() >= 2);
    plain.index_of_last_ensures('.');
    assert(plain[0] != '.' && plain.contains(plain[0]));
    let hidden = seq!['.'] + plain;
    hidden.index_of_last_ensures('.');
    assert(hidden[0] == '.');
    assert(hidden.contains('.'));
    let dot = hidden.index_of_last('.')->0;
    if dot > 0 {
        assert(plain[dot - 1] == '.');
    }
    assert(hidden[1] == plain[0]);
    assert("."@[0] == '.' && ".."@[1] == '.');
}

/// Behind the inputs stand the options, each directly followed by its value: the streams
/// are copied always; the position to seek is there exactly where it is given, and the fast
/// start exactly where it is asked for, whatever the other is. Nothing else is there.
pub proof fn law_options_are_as_asked_for(files: nat, seek: Option<Seq<char>>, fast_start: bool)
    requires
        files <= usize::MAX,
    ensures
        ({
            let args = command_args(files, seek, fast_start);
            let options = 2 * files as int;
            let start: int = if seek is Some {
                options + 4
            } else {
                options + 2
            };
            &&& args[options] == Arg::Text("-codec"@)
            &&& args[options + 1] == Arg::Text("copy"@)
            &&& seek matches Some(position) ==> args[options + 2] == Arg::Text("-ss"@)
                && args[options + 3] == Arg::Text(position)
            &&& fast_start ==> args[start] == Arg::Text("-movflags"@) && args[start + 1]
                == Arg::Text("faststart"@)
            &&& args.len() == start + (if fast_start {
                3int
            } else {
                1int
            })
        }),
{
    lemma_input_args(files);
}

/// In specifications no argument is left out or added.
pub proof fn law_arguments_are_seen_whole(args: Seq<Arg<String>>, i: int)
    requires
        0 <= i < args.len(),
    ensures
        arg_views(args).len() == args.len(),
        match args[i] {
            Arg::Text(text) => arg_views(args)[i] == Arg::Text(text@),
            Arg::File(at) => arg_views(args)[i] == Arg::<Seq<char>>::File(at),
            Arg::Output => arg_views(args)[i] == Arg::<Seq<char>>::Output,
        },
{
}

/// In specifications a protocol and an error are what they are.
pub proof fn law_detection_is_seen_whole(found: Result<Protocol, DetectError<String>>)
    ensures
        found matches Ok(protocol) ==> detected_view(found) == Ok::<_, DetectError<Seq<char>>>(
            protocol,
        ),
        found matches Err(DetectError::Url(cause)) ==> detected_view(found) == Err::<Protocol, _>(
            DetectError::Url(cause@),
        ),
        found matches Err(DetectError::Unknown) ==> detected_view(found) == Err::<
            Protocol,
            DetectError<Seq<char>>,
        >(DetectError::Unknown),
{
}

} // verus!
