# LuxiFer library

LuxiFer is an editor for laser cutters and engravers: drawings on coloured
layers, laser and material profiles, projects with versions, and the exchange
of project revisions and shared profiles with the Charon coordination service.

`src/` is the verified library (Verus). It holds the editor state with its
undo history, layers, selection and editing operations; the make-up of a laser
job and its preview; projects, versions and the revision inbox; laser and
material profiles; the Charon request and answer framing; tracing of bitmaps
into outlines; thresholding and rastering of grey images. Shapes refer to their
outlines by key, so that the library never holds floating-point geometry.

`app/` holds what stands around it: file and network I/O, serialisation, and
the geometry in millimetres (boolean operations, offsets, fill lines, vector
and font import), which works on floating-point values.

`tests/` runs the library on concrete values.
