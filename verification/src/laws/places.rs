//! Where results go and what they are called.
use vstd::prelude::*;

use crate::batch::{self, BatchArgs};
use crate::config::OutputMode;
use crate::naming;
use crate::path::{self, Component};
use crate::path_laws;
use crate::scan;

verus! {

/// The stem of a source in the name of its result, then the suffix and the ending.
pub open spec fn named(stem: Seq<u8>, suffix: Seq<char>, ending: Seq<char>) -> Seq<u8> {
    stem + vstd::utf8::encode_utf8(suffix) + vstd::utf8::encode_utf8(ending)
}

/// Whether `result` is the right path in a directory with the components `place`: it has
/// the plain name, or where that is the source itself, by its components or by where both
/// lead, the name with `.av1` in it.
pub open spec fn is_result_in(
    place: Seq<Component>,
    input: Seq<u8>,
    suffix: Seq<char>,
    choice_resolved: Option<Seq<u8>>,
    input_resolved: Option<Seq<u8>>,
    result: Option<Seq<u8>>,
) -> bool {
    let stem = path::file_stem(input)->0;
    let plain = named(stem, suffix, ".webm"@);
    let other = named(stem, suffix, ".av1.webm"@);
    let is_source = path::components(input) == place.push(Component::Normal(plain)) || (
    choice_resolved is Some && input_resolved is Some && path::components(choice_resolved->0)
        == path::components(input_resolved->0));
    &&& result is Some
    &&& path::components(result->0) == place.push(
        Component::Normal(
            if is_source {
                other
            } else {
                plain
            },
        ),
    )
}

/// A directory in which both names for a result are what they look like.
proof fn lemma_settled_in(
    dir: Seq<u8>,
    place: Seq<Component>,
    input: Seq<u8>,
    suffix: Seq<char>,
    choice_resolved: Option<Seq<u8>>,
    input_resolved: Option<Seq<u8>>,
)
    requires
        naming::usable_stem(input) is Some,
        path_laws::slash_free(vstd::utf8::encode_utf8(suffix)),
        ({
            let stem = naming::usable_stem(input)->0;
            &&& path::components(path::join(dir, naming::webm_name(stem, suffix))) == place.push(
                Component::Normal(naming::webm_name(stem, suffix)),
            )
            &&& path::components(path::join(dir, naming::av1_webm_name(stem, suffix)))
                == place.push(Component::Normal(naming::av1_webm_name(stem, suffix)))
        }),
    ensures
        is_result_in(
            place,
            input,
            suffix,
            choice_resolved,
            input_resolved,
            naming::settled(input, Some(dir), suffix, choice_resolved, input_resolved),
        ),
{
    reveal(naming::choice);
    reveal(naming::settled);
    naming::law_result_has_a_place(
        input,
        Some(dir),
        suffix,
        choice_resolved,
        input_resolved,
    );
}

proof fn lemma_in_base(base: Seq<u8>, input: Seq<u8>, name: Seq<u8>, suffix: Seq<char>)
    requires
        naming::usable_stem(input) is Some,
        path_laws::slash_free(vstd::utf8::encode_utf8(suffix)),
        name == naming::webm_name(naming::usable_stem(input)->0, suffix)
            || name == naming::av1_webm_name(naming::usable_stem(input)->0, suffix),
    ensures
        path::components(path::join(base, name)) == path::components(base).push(
            Component::Normal(name),
        ),
{
    naming::lemma_name_is_component(input, name, suffix);
    if base.len() == 0 {
        path_laws::lemma_empty_components();
        assert(base =~= Seq::empty());
        assert(path::join(base, name) =~= name);
        assert(Seq::<Component>::empty().push(Component::Normal(name)) =~= seq![
            Component::Normal(name),
        ]);
    } else {
        path_laws::lemma_join_components(base, name);
        assert(path::components(base) + seq![Component::Normal(name)] =~= path::components(
            base,
        ).push(Component::Normal(name)));
    }
}

/// Whether a source has a result at all: its stem has to be text.
pub open spec fn has_text_stem(input: Seq<u8>) -> bool {
    path::file_stem(input) is Some && vstd::utf8::valid_utf8(path::file_stem(input)->0)
}

/// The place below `base` that `input` has below `root`.
pub open spec fn mirrored(base: Seq<u8>, input: Seq<u8>, root: Seq<u8>) -> Seq<Component> {
    path::components(base) + path::components(input).skip(
        path::components(root).len() as int,
    ).drop_last()
}

/// Whether `input` is a file somewhere below the directory `root`.
pub open spec fn is_below(input: Seq<u8>, root: Seq<u8>) -> bool {
    &&& path::components(root).is_prefix_of(path::components(input))
    &&& path::components(root).len() < path::components(input).len()
    &&& path::components(root).len() > 0
}

proof fn lemma_beside(
    input: Seq<u8>,
    suffix: Seq<char>,
    choice_resolved: Option<Seq<u8>>,
    input_resolved: Option<Seq<u8>>,
)
    requires
        has_text_stem(input),
        path_laws::slash_free(vstd::utf8::encode_utf8(suffix)),
    ensures
        is_result_in(
            path::components(input).drop_last(),
            input,
            suffix,
            choice_resolved,
            input_resolved,
            naming::settled(input, path::parent(input), suffix, choice_resolved, input_resolved),
        ),
{
    let stem = naming::usable_stem(input)->0;
    scan::law_beside_source(input, naming::webm_name(stem, suffix), suffix);
    scan::law_beside_source(input, naming::av1_webm_name(stem, suffix), suffix);
    lemma_settled_in(
        path::parent(input)->0,
        path::components(input).drop_last(),
        input,
        suffix,
        choice_resolved,
        input_resolved,
    );
}

proof fn lemma_mirrored(
    base: Seq<u8>,
    input: Seq<u8>,
    root: Seq<u8>,
    suffix: Seq<char>,
    choice_resolved: Option<Seq<u8>>,
    input_resolved: Option<Seq<u8>>,
)
    requires
        has_text_stem(input),
        path_laws::slash_free(vstd::utf8::encode_utf8(suffix)),
        is_below(input, root),
    ensures
        ({
            let dir = scan::result_dir(input, root, OutputMode::Directory, Some(base));
            is_result_in(
                mirrored(base, input, root),
                input,
                suffix,
                choice_resolved,
                input_resolved,
                naming::settled(input, dir, suffix, choice_resolved, input_resolved),
            )
        }),
{
    let stem = naming::usable_stem(input)->0;
    let plain = naming::webm_name(stem, suffix);
    let other = naming::av1_webm_name(stem, suffix);
    let rest = path::components(input).skip(path::components(root).len() as int).drop_last();
    scan::law_mirrors_tree(input, root, base, plain, suffix);
    scan::law_mirrors_tree(input, root, base, other, suffix);
    assert(path::components(base) + rest.push(Component::Normal(plain)) =~= mirrored(
        base,
        input,
        root,
    ).push(Component::Normal(plain)));
    assert(path::components(base) + rest.push(Component::Normal(other)) =~= mirrored(
        base,
        input,
        root,
    ).push(Component::Normal(other)));
    lemma_settled_in(
        scan::result_dir(input, root, OutputMode::Directory, Some(base))->0,
        mirrored(base, input, root),
        input,
        suffix,
        choice_resolved,
        input_resolved,
    );
}

/// Where the result of a file of a scan goes: beside the source it shares its directory;
/// otherwise it has the place below the output directory that the source has below the
/// watched one, or stands directly in it where the source is elsewhere. There is no result
/// where the source's stem is no text or the output directory is not set.
pub proof fn law_place_of_a_result(
    input: Seq<u8>,
    watch_root: Seq<u8>,
    mode: OutputMode,
    directory: Option<Seq<u8>>,
    suffix: Seq<char>,
    choice_resolved: Option<Seq<u8>>,
    input_resolved: Option<Seq<u8>>,
)
    requires
        path_laws::slash_free(vstd::utf8::encode_utf8(suffix)),
    ensures
        ({
            let dir = scan::result_dir(input, watch_root, mode, directory);
            let result = naming::settled(input, dir, suffix, choice_resolved, input_resolved);
            let fits = |place: Seq<Component>|
                is_result_in(place, input, suffix, choice_resolved, input_resolved, result);
            &&& !has_text_stem(input) ==> result is None
            &&& mode == OutputMode::Directory && directory is None ==> result is None
            &&& has_text_stem(input) && mode == OutputMode::Beside ==> fits(
                path::components(input).drop_last(),
            )
            &&& has_text_stem(input) && mode == OutputMode::Directory && directory is Some
                && is_below(input, watch_root) ==> fits(mirrored(directory->0, input, watch_root))
            &&& has_text_stem(input) && mode == OutputMode::Directory && directory is Some
                && !path::components(watch_root).is_prefix_of(path::components(input)) ==> fits(
                path::components(directory->0),
            )
        }),
{
    reveal(naming::settled);
    if has_text_stem(input) {
        let stem = naming::usable_stem(input)->0;
        if mode == OutputMode::Beside {
            lemma_beside(input, suffix, choice_resolved, input_resolved);
        } else if directory is Some {
            let base = directory->0;
            if is_below(input, watch_root) {
                lemma_mirrored(
                    base,
                    input,
                    watch_root,
                    suffix,
                    choice_resolved,
                    input_resolved,
                );
            } else if !path::components(watch_root).is_prefix_of(path::components(input)) {
                lemma_in_base(base, input, naming::webm_name(stem, suffix), suffix);
                lemma_in_base(base, input, naming::av1_webm_name(stem, suffix), suffix);
                lemma_settled_in(
                    base,
                    path::components(base),
                    input,
                    suffix,
                    choice_resolved,
                    input_resolved,
                );
            }
        }
    }
}

/// Where the result of a file of a batch goes: beside the source, or to the place below the
/// output directory that the source has below the scanned one. There is no result where the
/// source's stem is no text, or with an output directory the source is elsewhere.
pub proof fn law_place_of_a_batch_result(
    args: BatchArgs,
    input: Seq<u8>,
    choice_resolved: Option<Seq<u8>>,
    input_resolved: Option<Seq<u8>>,
)
    requires
        path_laws::slash_free(vstd::utf8::encode_utf8(args.suffix@)),
    ensures
        ({
            let dir = batch::batch_dir(args, input);
            let suffix = args.suffix@;
            let result = naming::settled(input, dir, suffix, choice_resolved, input_resolved);
            let fits = |place: Seq<Component>|
                is_result_in(place, input, suffix, choice_resolved, input_resolved, result);
            &&& !has_text_stem(input) ==> result is None
            &&& has_text_stem(input) && args.output_dir is None ==> fits(
                path::components(input).drop_last(),
            )
            &&& has_text_stem(input) && args.output_dir is Some && is_below(
                input,
                args.dir.bytes@,
            ) ==> fits(mirrored(args.output_dir->0.bytes@, input, args.dir.bytes@))
            &&& args.output_dir is Some && !path::components(args.dir.bytes@).is_prefix_of(
                path::components(input),
            ) ==> result is None
        }),
{
    reveal(naming::settled);
    let suffix = args.suffix@;
    if has_text_stem(input) {
        if args.output_dir is None {
            lemma_beside(input, suffix, choice_resolved, input_resolved);
        } else if is_below(input, args.dir@) {
            lemma_mirrored(
                args.output_dir->0@,
                input,
                args.dir@,
                suffix,
                choice_resolved,
                input_resolved,
            );
        }
    }
}

/// The first choice is the plain name in that directory, and it is in the same directory as
/// the result.
pub proof fn law_first_choice_is_the_plain_name(
    input: Seq<u8>,
    dir: Option<Seq<u8>>,
    suffix: Seq<char>,
    choice_resolved: Option<Seq<u8>>,
    input_resolved: Option<Seq<u8>>,
)
    ensures
        ({
            let first = naming::choice(input, dir, suffix);
            let result = naming::settled(input, dir, suffix, choice_resolved, input_resolved);
            let stem = path::file_stem(input)->0;
            let in_dir = |name: Seq<u8>| path::join(dir->0, name);
            &&& first is Some <==> dir is Some && has_text_stem(input)
            &&& first is Some ==> first->0 == in_dir(named(stem, suffix, ".webm"@))
            &&& result is Some ==> first is Some && (result == first || result->0 == in_dir(
                named(stem, suffix, ".av1.webm"@),
            ))
            &&& first is Some && choice_resolved is None && path::components(first->0)
                != path::components(input) ==> result == first
            &&& result is Some ==> path::components(result->0) != path::components(input)
        }),
{
    naming::law_result_is_not_source(input, dir, suffix, choice_resolved, input_resolved);
    reveal(naming::choice);
    reveal(naming::settled);
}

/// The directory of a result, whatever the suffix: that of the source; or below the output
/// directory what is left of that below the watched one; or the output directory itself
/// where nothing is left or the source is elsewhere.
pub proof fn law_directory_of_a_result(
    input: Seq<u8>,
    watch_root: Seq<u8>,
    mode: OutputMode,
    directory: Option<Seq<u8>>,
)
    ensures
        ({
            let dir = scan::result_dir(input, watch_root, mode, directory);
            let left = path::strip_prefix(input, watch_root);
            &&& mode == OutputMode::Beside ==> dir == path::parent(input)
            &&& mode == OutputMode::Directory ==> (dir is None <==> directory is None)
            &&& mode == OutputMode::Directory && directory is Some ==> dir->0 == if left is Some
                && path::parent(left->0) is Some {
                path::join(directory->0, path::parent(left->0)->0)
            } else {
                directory->0
            }
        }),
{
}

/// The directory of a result of a batch, whatever the other options: that of the source; or
/// below the output directory what is left of that below the scanned one, and none where the
/// source is elsewhere.
pub proof fn law_directory_of_a_batch_result(args: BatchArgs, input: Seq<u8>)
    ensures
        ({
            let dir = batch::batch_dir(args, input);
            let left = path::strip_prefix(input, args.dir.bytes@);
            &&& args.output_dir is None ==> dir == path::parent(input)
            &&& args.output_dir is Some ==> (dir is None <==> left is None)
            &&& args.output_dir is Some && left is Some ==> dir->0 == if path::parent(
                left->0,
            ) is Some {
                path::join(args.output_dir->0.bytes@, path::parent(left->0)->0)
            } else {
                args.output_dir->0.bytes@
            }
        }),
{
}

/// Two paths lead to the same file where both resolve to the same, or where one does not
/// resolve, where they name the same.
pub proof fn law_same_file(
    a: Seq<u8>,
    b: Seq<u8>,
    a_resolved: Option<Seq<u8>>,
    b_resolved: Option<Seq<u8>>,
)
    ensures
        naming::same_file(a, b, a_resolved, b_resolved) <==> if a_resolved is Some
            && b_resolved is Some {
            path::components(a_resolved->0) == path::components(b_resolved->0)
        } else {
            path::components(a) == path::components(b)
        },
{
}

} // verus!
