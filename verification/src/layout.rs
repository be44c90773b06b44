//! How the fields read from a file become the fields of the points: the
//! change of coordinate system, the fields of a PCD cloud, and the row and
//! column of a point in an organized cloud.

use vstd::prelude::*;

use crate::names::{
    column_name, is_named, names_of, row_name, x_name, y_name, z_name,
};

verus! {

/// The fields of one point, built from the values of one record read from a
/// file, in the order of `names`. `plain[i]` is the entry of field `i` as
/// read, `mirrored[i]` the same entry with its value negated.
///
/// The renderer takes `y` as up and `-z` as forward, where files take `z` as
/// up and `x` as forward: the point starts with three `default` entries,
/// then the field named `y` gives the first one (mirrored), `z` the second
/// and `x` the third (mirrored); any other field is appended in order. A
/// later field of the same name replaces an earlier one.
pub open spec fn arranged<T>(names: Seq<Seq<char>>, plain: Seq<T>, mirrored: Seq<T>, default: T) -> Seq<T>
    decreases names.len(),
{
    if names.len() == 0 {
        seq![default, default, default]
    } else {
        let k = names.len() - 1;
        let prev = arranged(names.take(k), plain, mirrored, default);
        if names[k] == y_name() {
            prev.update(0, mirrored[k])
        } else if names[k] == z_name() {
            prev.update(1, plain[k])
        } else if names[k] == x_name() {
            prev.update(2, mirrored[k])
        } else {
            prev.push(plain[k])
        }
    }
}

/// An arranged point has at least the three coordinates.
pub proof fn lemma_arranged_len<T>(names: Seq<Seq<char>>, plain: Seq<T>, mirrored: Seq<T>, default: T)
    ensures
        arranged(names, plain, mirrored, default).len() >= 3,
    decreases names.len(),
{
    if names.len() > 0 {
        lemma_arranged_len(names.take(names.len() - 1), plain, mirrored, default);
    }
}

/// When the fields of a file are `x`, `y` and `z` followed by fields of other
/// names, a point holds the mirrored `y`, the plain `z` and the mirrored `x`,
/// followed by the other fields as read.
pub proof fn lemma_arranged_xyz_first<T>(
    names: Seq<Seq<char>>,
    plain: Seq<T>,
    mirrored: Seq<T>,
    default: T,
)
    requires
        names.len() >= 3,
        names[0] == x_name(),
        names[1] == y_name(),
        names[2] == z_name(),
        forall|i: int|
            3 <= i < names.len() ==> #[trigger] names[i] != x_name() && names[i] != y_name()
                && names[i] != z_name(),
        plain.len() >= names.len(),
        mirrored.len() >= 3,
    ensures
        arranged(names, plain, mirrored, default) == seq![mirrored[1], plain[2], mirrored[0]]
            + plain.subrange(3, names.len() as int),
    decreases names.len(),
{
    let k = names.len() - 1;
    if names.len() == 3 {
        assert(x_name()[0] != y_name()[0]);
        assert(x_name()[0] != z_name()[0]);
        assert(y_name()[0] != z_name()[0]);
        let n0 = names.take(0);
        let n1 = names.take(1);
        let n2 = names.take(2);
        assert(n1.take(0) =~= n0);
        assert(n2.take(1) =~= n1);
        assert(names.take(2) =~= n2);
        assert(n0.len() == 0);
        assert(arranged(n0, plain, mirrored, default) == seq![default, default, default]);
        assert(n1[0] == x_name());
        assert(n2[1] == y_name());
        assert(arranged(n1, plain, mirrored, default) =~= seq![default, default, mirrored[0]]);
        assert(arranged(n2, plain, mirrored, default) =~= seq![mirrored[1], default, mirrored[0]]);
        assert(arranged(names, plain, mirrored, default) =~= seq![mirrored[1], plain[2], mirrored[0]]
            + plain.subrange(3, 3));
    } else {
        let prev = names.take(k);
        lemma_arranged_xyz_first(prev, plain, mirrored, default);
        assert(names[k] != x_name() && names[k] != y_name() && names[k] != z_name());
        assert(arranged(names, plain, mirrored, default) =~= seq![mirrored[1], plain[2], mirrored[0]]
            + plain.subrange(3, names.len() as int));
    }
}

/// Builds the fields of one point from one record; see `arranged`.
pub fn arrange_point<T: Copy>(names: &Vec<String>, plain: &Vec<T>, mirrored: &Vec<T>, default: T) -> (out:
    Vec<T>)
    requires
        plain.len() >= names.len(),
        mirrored.len() >= names.len(),
    ensures
        out@ == arranged(names_of(names@), plain@, mirrored@, default),
{
    let ghost all = names_of(names@);
    let mut out: Vec<T> = Vec::new();
    out.push(default);
    out.push(default);
    out.push(default);
    proof {
        assert(all.take(0) =~= Seq::<Seq<char>>::empty());
        assert(out@ =~= arranged(all.take(0), plain@, mirrored@, default));
        reveal_strlit("x");
        reveal_strlit("y");
        reveal_strlit("z");
        assert("x"@ =~= x_name());
        assert("y"@ =~= y_name());
        assert("z"@ =~= z_name());
    }
    let n = names.len();
    let mut i: usize = 0;
    while i < n
        invariant
            n == names.len(),
            i <= n,
            plain.len() >= n,
            mirrored.len() >= n,
            all == names_of(names@),
            out@ == arranged(all.take(i as int), plain@, mirrored@, default),
            "x"@ == x_name(),
            "y"@ == y_name(),
            "z"@ == z_name(),
        decreases n - i,
    {
        proof {
            lemma_arranged_len(all.take(i as int), plain@, mirrored@, default);
            assert(all.take(i + 1).take(i as int) =~= all.take(i as int));
            assert(all.take(i + 1)[i as int] == names@[i as int]@);
        }
        if is_named(&names[i], "y") {
            out.set(0, mirrored[i]);
        } else if is_named(&names[i], "z") {
            out.set(1, plain[i]);
        } else if is_named(&names[i], "x") {
            out.set(2, mirrored[i]);
        } else {
            out.push(plain[i]);
        }
        i += 1;
    }
    proof {
        assert(all.take(n as int) =~= all);
    }
    out
}

/// Where the value of a field of a PCD point comes from.
#[derive(Clone, Copy, Debug, PartialEq, Eq)]
pub enum FieldSource {
    /// The field of the record at this index.
    Record(usize),
    /// The row of the point in an organized cloud.
    Row,
    /// The column of the point in an organized cloud.
    Column,
}

/// The fields of a point cloud read from a PCD file, and where each takes
/// its values from.
pub struct PcdLayout {
    /// The names of the fields.
    pub field_names: Vec<String>,
    /// For each field, where its values come from.
    pub sources: Vec<FieldSource>,
}

/// The layout of a PCD cloud before the fields of the file are read: `x`,
/// `y` and `z` from the first field of the records, then, for an organized
/// cloud, the row and column of each point.
pub open spec fn pcd_initial(organized: bool) -> (Seq<Seq<char>>, Seq<FieldSource>) {
    if organized {
        (
            seq![x_name(), y_name(), z_name(), row_name(), column_name()],
            seq![FieldSource::Record(0), FieldSource::Record(0), FieldSource::Record(0), FieldSource::Row, FieldSource::Column],
        )
    } else {
        (
            seq![x_name(), y_name(), z_name()],
            seq![FieldSource::Record(0), FieldSource::Record(0), FieldSource::Record(0)],
        )
    }
}

/// The layout of a PCD cloud whose records have the fields `file` (in this
/// order). `x`, `y` and `z` take their values from the last field of that
/// name; fields named `row` or `column` are ignored, since an organized
/// cloud gets its own; every other field is appended with its values.
pub open spec fn pcd_fields(file: Seq<Seq<char>>, organized: bool) -> (Seq<Seq<char>>, Seq<FieldSource>)
    decreases file.len(),
{
    if file.len() == 0 {
        pcd_initial(organized)
    } else {
        let k = file.len() - 1;
        let (names, sources) = pcd_fields(file.take(k), organized);
        let name = file[k];
        if name == x_name() {
            (names, sources.update(0, FieldSource::Record(k as usize)))
        } else if name == y_name() {
            (names, sources.update(1, FieldSource::Record(k as usize)))
        } else if name == z_name() {
            (names, sources.update(2, FieldSource::Record(k as usize)))
        } else if name == row_name() || name == column_name() {
            (names, sources)
        } else {
            (names.push(name), sources.push(FieldSource::Record(k as usize)))
        }
    }
}

/// The names of a PCD layout are `x`, `y` and `z` followed by names that
/// are none of these three, so that every point built from it holds one
/// entry per field.
pub proof fn lemma_pcd_fields_xyz_first(file: Seq<Seq<char>>, organized: bool)
    ensures
        ({
            let names = pcd_fields(file, organized).0;
            &&& names.len() >= 3
            &&& names[0] == x_name()
            &&& names[1] == y_name()
            &&& names[2] == z_name()
            &&& forall|i: int|
                3 <= i < names.len() ==> #[trigger] names[i] != x_name() && names[i] != y_name()
                    && names[i] != z_name()
        }),
    decreases file.len(),
{
    assert(row_name()[0] != x_name()[0] && row_name()[0] != y_name()[0] && row_name()[0] != z_name()[0]);
    assert(column_name()[0] != x_name()[0] && column_name()[0] != y_name()[0] && column_name()[0]
        != z_name()[0]);
    if file.len() > 0 {
        lemma_pcd_fields_xyz_first(file.take(file.len() - 1), organized);
    }
}

/// A PCD layout has one source per field and at least `x`, `y` and `z`.
pub proof fn lemma_pcd_fields_len(file: Seq<Seq<char>>, organized: bool)
    ensures
        pcd_fields(file, organized).0.len() == pcd_fields(file, organized).1.len(),
        pcd_fields(file, organized).0.len() >= 3,
    decreases file.len(),
{
    if file.len() > 0 {
        lemma_pcd_fields_len(file.take(file.len() - 1), organized);
    }
}

/// Whether a field name is one of the three coordinates.
pub open spec fn is_coordinate(name: Seq<char>) -> bool {
    name == x_name() || name == y_name() || name == z_name()
}

/// The field named `name` is the one at `at` in `file`, and no other field of
/// `file` has that name.
pub open spec fn single_field(file: Seq<Seq<char>>, name: Seq<char>, at: int) -> bool {
    &&& 0 <= at < file.len()
    &&& file[at] == name
    &&& forall|j: int| 0 <= j < file.len() && j != at ==> #[trigger] file[j] != name
}

/// The value that a field of a PCD point takes from `record`, for a point at
/// (`row`, `column`) of an organized cloud.
pub open spec fn source_value<T>(source: FieldSource, record: Seq<T>, row: T, column: T) -> T {
    match source {
        FieldSource::Record(i) => record[i as int],
        FieldSource::Row => row,
        FieldSource::Column => column,
    }
}

/// The fields of the point that a PCD layout builds from `record`.
pub open spec fn pcd_point<T>(file: Seq<Seq<char>>, organized: bool, record: Seq<T>, row: T, column: T) -> Seq<T> {
    pcd_fields(file, organized).1.map_values(|s: FieldSource| source_value(s, record, row, column))
}

/// A coordinate whose name occurs once in the file, at `at`, takes its values
/// from the field at `at`.
pub proof fn lemma_pcd_coordinate_source(
    file: Seq<Seq<char>>,
    organized: bool,
    slot: int,
    name: Seq<char>,
    at: int,
)
    requires
        (slot == 0 && name == x_name()) || (slot == 1 && name == y_name()) || (slot == 2 && name
            == z_name()),
        single_field(file, name, at),
    ensures
        pcd_fields(file, organized).1[slot] == FieldSource::Record(at as usize),
    decreases file.len(),
{
    let k = file.len() - 1;
    lemma_pcd_fields_len(file.take(k), organized);
    assert(x_name()[0] != y_name()[0] && x_name()[0] != z_name()[0] && y_name()[0] != z_name()[0]);
    if at < k {
        assert(single_field(file.take(k), name, at));
        lemma_pcd_coordinate_source(file.take(k), organized, slot, name, at);
        assert(file[k] != name);
    } else {
        assert(file.take(k).len() == k);
    }
}

/// Two files whose coordinate fields stand at the same places, and whose other
/// fields have the same names and values, give PCD layouts with the same
/// names and the same sources past the three coordinates; those take their
/// values from fields that are no coordinate, or from the grid.
proof fn lemma_pcd_fields_same_rest<T>(
    f1: Seq<Seq<char>>,
    f2: Seq<Seq<char>>,
    r1: Seq<T>,
    r2: Seq<T>,
    organized: bool,
)
    requires
        f1.len() == f2.len(),
        f1.len() <= usize::MAX,
        r1.len() >= f1.len(),
        r2.len() >= f2.len(),
        forall|j: int| 0 <= j < f1.len() ==> (is_coordinate(#[trigger] f1[j]) <==> is_coordinate(f2[j])),
        forall|j: int|
            0 <= j < f1.len() && !is_coordinate(#[trigger] f1[j]) ==> f1[j] == f2[j] && r1[j] == r2[j],
    ensures
        pcd_fields(f1, organized).0 == pcd_fields(f2, organized).0,
        pcd_fields(f1, organized).1.len() == pcd_fields(f2, organized).1.len(),
        forall|i: int|
            3 <= i < pcd_fields(f1, organized).1.len() ==> {
                let s = #[trigger] pcd_fields(f1, organized).1[i];
                &&& s == pcd_fields(f2, organized).1[i]
                &&& s matches FieldSource::Record(j) ==> 0 <= j < f1.len() && !is_coordinate(f1[j as int])
            },
    decreases f1.len(),
{
    lemma_pcd_fields_len(f1, organized);
    lemma_pcd_fields_len(f2, organized);
    if f1.len() > 0 {
        let k = f1.len() - 1;
        let p1 = f1.take(k);
        let p2 = f2.take(k);
        assert forall|j: int| 0 <= j < p1.len() implies (is_coordinate(#[trigger] p1[j]) <==> is_coordinate(p2[j])) by {
            assert(p1[j] == f1[j] && p2[j] == f2[j]);
        }
        assert forall|j: int| 0 <= j < p1.len() && !is_coordinate(#[trigger] p1[j]) implies p1[j] == p2[j] && r1[j] == r2[j] by {
            assert(p1[j] == f1[j] && p2[j] == f2[j]);
        }
        lemma_pcd_fields_same_rest(p1, p2, r1, r2, organized);
        lemma_pcd_fields_len(p1, organized);
        lemma_pcd_fields_len(p2, organized);
        let (n1, s1) = pcd_fields(p1, organized);
        let (n2, s2) = pcd_fields(p2, organized);
        assert(is_coordinate(f1[k]) <==> is_coordinate(f2[k]));
        if !is_coordinate(f1[k]) {
            assert(f1[k] == f2[k]);
        }
        let name1 = f1[k];
        let (m1, t1) = pcd_fields(f1, organized);
        let (m2, t2) = pcd_fields(f2, organized);
        assert(x_name()[0] != y_name()[0] && x_name()[0] != z_name()[0] && y_name()[0] != z_name()[0]);
        assert forall|i: int| 3 <= i < s1.len() implies {
            let s = #[trigger] s1[i];
            s matches FieldSource::Record(j) ==> 0 <= j < f1.len() && !is_coordinate(f1[j as int])
        } by {
            if let FieldSource::Record(j) = s1[i] {
                assert(p1[j as int] == f1[j as int]);
            }
        }
        if is_coordinate(name1) {
            assert(m1 == n1 && m2 == n2);
            assert(t1.len() == s1.len() && t2.len() == s2.len());
            assert forall|i: int| 3 <= i < t1.len() implies t1[i] == s1[i] && t2[i] == s2[i] by {}
        } else if name1 == row_name() || name1 == column_name() {
            assert(m1 == n1 && m2 == n2 && t1 == s1 && t2 == s2);
        } else {
            assert(f2[k] == name1);
            assert(m1 == n1.push(name1) && m2 == n2.push(name1));
            assert(t1 == s1.push(FieldSource::Record(k as usize)));
            assert(t2 == s2.push(FieldSource::Record(k as usize)));
            assert(t1[s1.len() as int] == FieldSource::Record(k as usize));
        }
    }
}

/// Exchanging the columns of `x`, `y` and `z` in a PCD file changes nothing
/// of the cloud read from it: when each coordinate names exactly one field of
/// each file, the same coordinate holds the same values in both records, and
/// every other field has the same name, place and value in both, the layouts
/// have the same field names and build the same point.
pub proof fn lemma_pcd_coordinate_columns_exchange<T>(
    f1: Seq<Seq<char>>,
    f2: Seq<Seq<char>>,
    r1: Seq<T>,
    r2: Seq<T>,
    organized: bool,
    row: T,
    column: T,
    x1: int,
    y1: int,
    z1: int,
    x2: int,
    y2: int,
    z2: int,
)
    requires
        f1.len() == f2.len(),
        f1.len() <= usize::MAX,
        r1.len() == f1.len(),
        r2.len() == f2.len(),
        single_field(f1, x_name(), x1),
        single_field(f1, y_name(), y1),
        single_field(f1, z_name(), z1),
        single_field(f2, x_name(), x2),
        single_field(f2, y_name(), y2),
        single_field(f2, z_name(), z2),
        r1[x1] == r2[x2],
        r1[y1] == r2[y2],
        r1[z1] == r2[z2],
        forall|j: int|
            0 <= j < f1.len() && !is_coordinate(#[trigger] f1[j]) ==> f1[j] == f2[j] && r1[j] == r2[j],
    ensures
        pcd_fields(f1, organized).0 == pcd_fields(f2, organized).0,
        pcd_point(f1, organized, r1, row, column) == pcd_point(f2, organized, r2, row, column),
{
    assert(x_name()[0] != y_name()[0] && x_name()[0] != z_name()[0] && y_name()[0] != z_name()[0]);
    // The coordinates of the second file stand where those of the first do.
    assert forall|a: int| 0 <= a < f1.len() && is_coordinate(#[trigger] f2[a]) implies a == x1 || a
        == y1 || a == z1 by {
        if !is_coordinate(f1[a]) {
            assert(f1[a] == f2[a]);
        }
    }
    assert(x2 == x1 || x2 == y1 || x2 == z1);
    assert(y2 == x1 || y2 == y1 || y2 == z1);
    assert(z2 == x1 || z2 == y1 || z2 == z1);
    assert(x2 != y2 && x2 != z2 && y2 != z2);
    assert forall|j: int| 0 <= j < f1.len() implies (is_coordinate(#[trigger] f1[j]) <==> is_coordinate(f2[j])) by {
        if !is_coordinate(f1[j]) {
            assert(f1[j] == f2[j]);
        } else {
            assert(j == x1 || j == y1 || j == z1);
            assert(j == x2 || j == y2 || j == z2);
        }
    }
    lemma_pcd_fields_same_rest(f1, f2, r1, r2, organized);
    lemma_pcd_fields_len(f1, organized);
    lemma_pcd_fields_len(f2, organized);
    lemma_pcd_coordinate_source(f1, organized, 0, x_name(), x1);
    lemma_pcd_coordinate_source(f1, organized, 1, y_name(), y1);
    lemma_pcd_coordinate_source(f1, organized, 2, z_name(), z1);
    lemma_pcd_coordinate_source(f2, organized, 0, x_name(), x2);
    lemma_pcd_coordinate_source(f2, organized, 1, y_name(), y2);
    lemma_pcd_coordinate_source(f2, organized, 2, z_name(), z2);
    let p1 = pcd_point(f1, organized, r1, row, column);
    let p2 = pcd_point(f2, organized, r2, row, column);
    assert(p1.len() == p2.len());
    assert forall|i: int| 0 <= i < p1.len() implies p1[i] == p2[i] by {
        let s = pcd_fields(f1, organized).1[i];
        assert(p1[i] == source_value(s, r1, row, column));
        assert(p2[i] == source_value(pcd_fields(f2, organized).1[i], r2, row, column));
        if i >= 3 {
            if let FieldSource::Record(j) = s {
                assert(r1[j as int] == r2[j as int]);
            }
        }
    }
    assert(p1 =~= p2);
}

/// The layout of a point cloud read from a PCD file whose records have the
/// fields named `file_names`; see `pcd_fields`.
pub fn pcd_layout(file_names: &Vec<String>, organized: bool) -> (layout: PcdLayout)
    ensures
        names_of(layout.field_names@) == pcd_fields(names_of(file_names@), organized).0,
        layout.sources@ == pcd_fields(names_of(file_names@), organized).1,
{
    let ghost all = names_of(file_names@);
    proof {
        reveal_strlit("x");
        reveal_strlit("y");
        reveal_strlit("z");
        reveal_strlit("row");
        reveal_strlit("column");
        assert("x"@ =~= x_name());
        assert("y"@ =~= y_name());
        assert("z"@ =~= z_name());
        assert("row"@ =~= row_name());
        assert("column"@ =~= column_name());
    }
    let mut field_names: Vec<String> = Vec::new();
    let mut sources: Vec<FieldSource> = Vec::new();
    field_names.push(String::from_str("x"));
    field_names.push(String::from_str("y"));
    field_names.push(String::from_str("z"));
    sources.push(FieldSource::Record(0));
    sources.push(FieldSource::Record(0));
    sources.push(FieldSource::Record(0));
    if organized {
        field_names.push(String::from_str("row"));
        field_names.push(String::from_str("column"));
        sources.push(FieldSource::Row);
        sources.push(FieldSource::Column);
    }
    proof {
        assert(all.take(0) =~= Seq::<Seq<char>>::empty());
        assert(names_of(field_names@) =~= pcd_fields(all.take(0), organized).0);
        assert(sources@ =~= pcd_fields(all.take(0), organized).1);
    }
    let n = file_names.len();
    let mut i: usize = 0;
    while i < n
        invariant
            n == file_names.len(),
            i <= n,
            all == names_of(file_names@),
            names_of(field_names@) == pcd_fields(all.take(i as int), organized).0,
            sources@ == pcd_fields(all.take(i as int), organized).1,
            "x"@ == x_name(),
            "y"@ == y_name(),
            "z"@ == z_name(),
            "row"@ == row_name(),
            "column"@ == column_name(),
        decreases n - i,
    {
        proof {
            lemma_pcd_fields_len(all.take(i as int), organized);
            assert(all.take(i + 1).take(i as int) =~= all.take(i as int));
            assert(all.take(i + 1)[i as int] == file_names@[i as int]@);
        }
        let name = &file_names[i];
        if is_named(name, "x") {
            sources.set(0, FieldSource::Record(i));
        } else if is_named(name, "y") {
            sources.set(1, FieldSource::Record(i));
        } else if is_named(name, "z") {
            sources.set(2, FieldSource::Record(i));
        } else if is_named(name, "row") || is_named(name, "column") {
        } else {
            let ghost before = field_names@;
            field_names.push(name.clone());
            sources.push(FieldSource::Record(i));
            proof {
                assert(names_of(field_names@) =~= names_of(before).push(name@));
            }
        }
        i += 1;
    }
    proof {
        assert(all.take(n as int) =~= all);
    }
    PcdLayout { field_names, sources }
}

/// The row and the column of the point stored at `index` in an organized
/// cloud of `width` columns.
pub fn grid_position(index: u64, width: u64) -> (pos: (u64, u64))
    requires
        width > 0,
    ensures
        pos.0 == index / width,
        pos.1 == index % width,
{
    (index / width, index % width)
}

/// The point stored at `index` in a cloud of `width` columns is the one at
/// (`row`, `column`) = `grid_position(index, width)`: `row * width + column`
/// gives back `index`, with `column < width`.
pub proof fn lemma_grid_position_inverse(index: nat, width: nat)
    requires
        width > 0,
    ensures
        (index / width) * width + index % width == index,
        index % width < width,
{
    vstd::arithmetic::div_mod::lemma_fundamental_div_mod(index as int, width as int);
    vstd::arithmetic::mul::lemma_mul_is_commutative(width as int, (index / width) as int);
}

/// The point at (`row`, `column`) of a cloud of `width` columns, with
/// `column < width`, is stored at `row * width + column`, and
/// `grid_position` finds it there.
pub proof fn lemma_grid_position_of_index(row: nat, column: nat, width: nat)
    requires
        column < width,
    ensures
        (row * width + column) / width == row,
        (row * width + column) % width == column,
{
    vstd::arithmetic::div_mod::lemma_fundamental_div_mod_converse(
        (row * width + column) as int,
        width as int,
        row as int,
        column as int,
    );
}

} // verus!
