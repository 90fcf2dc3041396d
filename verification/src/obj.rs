use vstd::prelude::*;

verus! {

/// The attributes of one vertex as an OBJ file gives them: its position, its
/// color when the file has vertex colors, and its texture coordinates when
/// the file has them.
pub struct ObjVertex<S> {
    pub position: [S; 3],
    pub color: Option<[S; 3]>,
    pub tex_coords: Option<[S; 2]>,
}

/// The `i`-th vertex that the flat attribute arrays describe: three
/// position components, three color components (when `colors` is not
/// empty) and two texture coordinates (when `texcoords` is not empty) per
/// vertex.
pub open spec fn obj_vertex_at<S>(positions: Seq<S>, colors: Seq<S>, texcoords: Seq<S>, i: int) -> (
    Seq<S>,
    Option<Seq<S>>,
    Option<Seq<S>>,
) {
    (
        seq![positions[3 * i], positions[3 * i + 1], positions[3 * i + 2]],
        if colors.len() == 0 {
            None
        } else {
            Some(seq![colors[3 * i], colors[3 * i + 1], colors[3 * i + 2]])
        },
        if texcoords.len() == 0 {
            None
        } else {
            Some(seq![texcoords[2 * i], texcoords[2 * i + 1]])
        },
    )
}

/// The vertices that the flat attribute arrays of an OBJ mesh describe: one
/// per complete triple of position components, in order.
pub fn gather_obj_vertices<S: Copy>(
    positions: &Vec<S>,
    vertex_color: &Vec<S>,
    texcoords: &Vec<S>,
) -> (res: Vec<ObjVertex<S>>)
    requires
        vertex_color@.len() == 0 || vertex_color@.len() >= 3 * (positions@.len() / 3),
        texcoords@.len() == 0 || texcoords@.len() >= 2 * (positions@.len() / 3),
    ensures
        res@.len() == positions@.len() / 3,
        forall|i: int|
            0 <= i < res@.len() ==> {
                let (p, c, t) = obj_vertex_at(positions@, vertex_color@, texcoords@, i);
                &&& (#[trigger] res@[i]).position@ == p
                &&& match res@[i].color {
                    Some(a) => c == Some(a@),
                    None => c is None,
                }
                &&& match res@[i].tex_coords {
                    Some(a) => t == Some(a@),
                    None => t is None,
                }
            },
        forall|i: int|
            0 <= i < res@.len() ==> {
                &&& (#[trigger] res@[i]).position@ == seq![
                    positions@[3 * i],
                    positions@[3 * i + 1],
                    positions@[3 * i + 2],
                ]
                &&& (res@[i].color is Some <==> vertex_color@.len() != 0)
                &&& (res@[i].color matches Some(a) ==> a@ == seq![
                    vertex_color@[3 * i],
                    vertex_color@[3 * i + 1],
                    vertex_color@[3 * i + 2],
                ])
                &&& (res@[i].tex_coords is Some <==> texcoords@.len() != 0)
                &&& (res@[i].tex_coords matches Some(a) ==> a@ == seq![
                    texcoords@[2 * i],
                    texcoords@[2 * i + 1],
                ])
            },
{
    let len = positions.len();
    let n = len / 3;
    let mut verts: Vec<ObjVertex<S>> = Vec::new();
    let mut i: usize = 0;
    while i < n
        invariant
            n == positions@.len() / 3,
            len == positions@.len(),
            vertex_color@.len() == 0 || vertex_color@.len() >= 3 * n,
            texcoords@.len() == 0 || texcoords@.len() >= 2 * n,
            i <= n,
            verts@.len() == i,
            forall|k: int|
                0 <= k < i ==> {
                    let (p, c, t) = obj_vertex_at(positions@, vertex_color@, texcoords@, k);
                    &&& (#[trigger] verts@[k]).position@ == p
                    &&& match verts@[k].color {
                        Some(a) => c == Some(a@),
                        None => c is None,
                    }
                    &&& match verts@[k].tex_coords {
                        Some(a) => t == Some(a@),
                        None => t is None,
                    }
                },
        decreases n - i,
    {
        assert(i * 3 + 2 < positions@.len() && i * 3 + 2 < 3 * n && i * 2 + 1 < 2 * n) by (nonlinear_arith)
            requires
                i < n,
                n == positions@.len() / 3,
        ;
        let position = [positions[i * 3], positions[i * 3 + 1], positions[i * 3 + 2]];
        let color = if !vertex_color.is_empty() {
            Some([vertex_color[i * 3], vertex_color[i * 3 + 1], vertex_color[i * 3 + 2]])
        } else {
            None
        };
        let tex_coords = if !texcoords.is_empty() {
            Some([texcoords[i * 2], texcoords[i * 2 + 1]])
        } else {
            None
        };
        proof {
            assert(position@ =~= seq![positions@[3 * i], positions@[3 * i + 1], positions@[3 * i + 2]]);
            if let Some(a) = color {
                assert(a@ =~= seq![vertex_color@[3 * i], vertex_color@[3 * i + 1], vertex_color@[3 * i + 2]]);
            }
            if let Some(a) = tex_coords {
                assert(a@ =~= seq![texcoords@[2 * i], texcoords@[2 * i + 1]]);
            }
        }
        verts.push(ObjVertex { position, color, tex_coords });
        i = i + 1;
    }
    verts
}

/// Each attribute of a vertex comes from its own array alone: the position
/// from the three position components at `3 i`, the color from the three
/// color components at `3 i` exactly when there are colors, and the texture
/// coordinates from the pair at `2 i` exactly when there are texture
/// coordinates, whatever the other arrays hold.
pub proof fn law_obj_vertex_attributes<S>(
    positions: Seq<S>,
    colors: Seq<S>,
    texcoords: Seq<S>,
    i: int,
)
    ensures
        obj_vertex_at(positions, colors, texcoords, i).0 == seq![
            positions[3 * i],
            positions[3 * i + 1],
            positions[3 * i + 2],
        ],
        obj_vertex_at(positions, colors, texcoords, i).1 == if colors.len() == 0 {
            None
        } else {
            Some(seq![colors[3 * i], colors[3 * i + 1], colors[3 * i + 2]])
        },
        obj_vertex_at(positions, colors, texcoords, i).2 == if texcoords.len() == 0 {
            None
        } else {
            Some(seq![texcoords[2 * i], texcoords[2 * i + 1]])
        },
{
}

} // verus!
